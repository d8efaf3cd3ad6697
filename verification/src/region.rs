//! Constraining bytes to constants inside a region of a circuit.

use vstd::prelude::*;

verus! {

/// A region of a circuit in which a cell can be constrained to a constant.
///
/// Beside the instruction stands the relation between what it was given and
/// what came of it. A region that does not define it says nothing of it.
pub trait ConstrainConstant<B>: Sized {
    /// Why a constraint could not be imposed.
    type Error;

    /// Constraining `byte` to `constant` in the region `pre` may leave `post`
    /// and reply so.
    open spec fn constrains_one(
        pre: Self,
        byte: B,
        constant: u8,
        post: Self,
        reply: Result<(), Self::Error>,
    ) -> bool {
        true
    }

    /// Constrains an assigned byte to a constant.
    fn constrain_constant(&mut self, byte: &B, constant: u8) -> (reply: Result<(), Self::Error>)
        ensures
            Self::constrains_one(*old(self), *byte, constant, *final(self), reply),
    ;
}

/// Imposing one more constraint, where those before it left the region `mid`
/// and replied `before`, may leave `post` and reply so.
pub open spec fn imposes_next<B, R: ConstrainConstant<B>>(
    mid: R,
    before: Result<(), R::Error>,
    byte: B,
    constant: u8,
    post: R,
    reply: Result<(), R::Error>,
) -> bool {
    match before {
        Err(e) => post == mid && reply == Err::<(), R::Error>(e),
        Ok(_) => R::constrains_one(mid, byte, constant, post, reply),
    }
}

/// Imposing `constraints` on `bytes` one after another, up to the first that
/// fails, may lead from the region `pre` to `post` and reply so.
pub open spec fn imposes<B, R: ConstrainConstant<B>>(
    pre: R,
    bytes: Seq<B>,
    constraints: Seq<(usize, u8)>,
    post: R,
    reply: Result<(), R::Error>,
) -> bool
    decreases constraints.len(),
{
    if constraints.len() == 0 {
        post == pre && reply == Ok::<(), R::Error>(())
    } else {
        exists|mid: R, before: Result<(), R::Error>|
            #[trigger] imposes_next(
                mid,
                before,
                bytes[constraints.last().0 as int],
                constraints.last().1,
                post,
                reply,
            ) && imposes(pre, bytes, constraints.drop_last(), mid, before)
    }
}

/// Imposes each `(position, constant)` in turn: `bytes[position]` has to equal
/// `constant`. The first constraint that fails ends the work, and its error is
/// the reply.
pub fn impose_constraints<B, R: ConstrainConstant<B>>(
    region: &mut R,
    bytes: &[B],
    constraints: &[(usize, u8)],
) -> (reply: Result<(), R::Error>)
    requires
        forall|i: int| 0 <= i < constraints@.len() ==> (#[trigger] constraints@[i]).0 < bytes@.len(),
    ensures
        imposes(*old(region), bytes@, constraints@, *final(region), reply),
{
    assert(constraints@.take(0) =~= Seq::empty());
    for i in 0..constraints.len()
        invariant
            forall|i: int|
                0 <= i < constraints@.len() ==> (#[trigger] constraints@[i]).0 < bytes@.len(),
            imposes(
                *old(region),
                bytes@,
                constraints@.take(i as int),
                *region,
                Ok::<(), R::Error>(()),
            ),
    {
        let ghost before = *region;
        let ghost next = constraints@.take(i + 1);
        assert(next.drop_last() =~= constraints@.take(i as int));
        assert(next.last() == constraints@[i as int]);
        let (position, constant): (usize, u8) = constraints[i];
        let reply = region.constrain_constant(&bytes[position], constant);
        assert(imposes_next(
            before,
            Ok::<(), R::Error>(()),
            bytes@[next.last().0 as int],
            next.last().1,
            *region,
            reply,
        ));
        match reply {
            Ok(unit) => {
                assert(unit == ());
            },
            Err(e) => {
                proof {
                    failed_constraint_ends_the_work(
                        *old(region),
                        bytes@,
                        constraints@,
                        i + 1,
                        *region,
                        e,
                    );
                }
                return Err(e);
            },
        }
    }
    assert(constraints@.take(constraints@.len() as int) =~= constraints@);
    Ok(())
}

/// The first constraint that fails ends the work: where the constraints up to
/// `count` leave `post` and reply with an error, so do all of them, for no
/// later one is tried.
pub proof fn failed_constraint_ends_the_work<B, R: ConstrainConstant<B>>(
    pre: R,
    bytes: Seq<B>,
    constraints: Seq<(usize, u8)>,
    count: int,
    post: R,
    e: R::Error,
)
    requires
        0 <= count <= constraints.len(),
        imposes(pre, bytes, constraints.take(count), post, Err::<(), R::Error>(e)),
    ensures
        imposes(pre, bytes, constraints, post, Err::<(), R::Error>(e)),
    decreases constraints.len() - count,
{
    if count == constraints.len() {
        assert(constraints.take(count) =~= constraints);
    } else {
        let failed = Err::<(), R::Error>(e);
        let next = constraints.take(count + 1);
        assert(next.drop_last() =~= constraints.take(count));
        assert(imposes_next(
            post,
            failed,
            bytes[next.last().0 as int],
            next.last().1,
            post,
            failed,
        ));
        failed_constraint_ends_the_work(pre, bytes, constraints, count + 1, post, e);
    }
}

/// The constraints before the one at `k` were imposed, that one failed with
/// `e`, and so it left the region `post`.
pub open spec fn fails_at<B, R: ConstrainConstant<B>>(
    pre: R,
    bytes: Seq<B>,
    constraints: Seq<(usize, u8)>,
    k: int,
    mid: R,
    post: R,
    e: R::Error,
) -> bool {
    &&& 0 <= k < constraints.len()
    &&& imposes(pre, bytes, constraints.take(k), mid, Ok::<(), R::Error>(()))
    &&& R::constrains_one(
        mid,
        bytes[constraints[k].0 as int],
        constraints[k].1,
        post,
        Err::<(), R::Error>(e),
    )
}

/// Work that ends with an error ends at one of the constraints: all before it
/// were imposed, it failed with that error, and the region is as it left it.
pub proof fn error_is_that_of_the_last_constraint_tried<B, R: ConstrainConstant<B>>(
    pre: R,
    bytes: Seq<B>,
    constraints: Seq<(usize, u8)>,
    post: R,
    e: R::Error,
) -> (at: (int, R))
    requires
        imposes(pre, bytes, constraints, post, Err::<(), R::Error>(e)),
    ensures
        fails_at(pre, bytes, constraints, at.0, at.1, post, e),
    decreases constraints.len(),
{
    let failed = Err::<(), R::Error>(e);
    let before_last = constraints.drop_last();
    let (mid, before) = choose|mid: R, before: Result<(), R::Error>|
        #[trigger] imposes_next(
            mid,
            before,
            bytes[constraints.last().0 as int],
            constraints.last().1,
            post,
            failed,
        ) && imposes(pre, bytes, before_last, mid, before);
    match before {
        Err(_) => {
            let at = error_is_that_of_the_last_constraint_tried(pre, bytes, before_last, mid, e);
            assert(constraints.take(at.0) =~= before_last.take(at.0));
            at
        },
        Ok(unit) => {
            assert(unit == ());
            assert(constraints.take(constraints.len() - 1) =~= before_last);
            (constraints.len() - 1, mid)
        },
    }
}

/// The regions through which the work goes: it starts at the first, and each
/// constraint up to `count` leads, with success, from one region to the next.
pub open spec fn goes_through<B, R: ConstrainConstant<B>>(
    bytes: Seq<B>,
    constraints: Seq<(usize, u8)>,
    count: int,
    regions: Seq<R>,
) -> bool {
    &&& 0 <= count <= constraints.len()
    &&& regions.len() == count + 1
    &&& forall|k: int|
        0 <= k < count ==> #[trigger] R::constrains_one(
            regions[k],
            bytes[constraints[k].0 as int],
            constraints[k].1,
            regions[k + 1],
            Ok::<(), R::Error>(()),
        )
}

proof fn successful_work_goes_through<B, R: ConstrainConstant<B>>(
    pre: R,
    bytes: Seq<B>,
    constraints: Seq<(usize, u8)>,
    post: R,
) -> (regions: Seq<R>)
    requires
        imposes(pre, bytes, constraints, post, Ok::<(), R::Error>(())),
    ensures
        regions[0] == pre,
        regions[constraints.len() as int] == post,
        goes_through(bytes, constraints, constraints.len() as int, regions),
    decreases constraints.len(),
{
    if constraints.len() == 0 {
        seq![pre]
    } else {
        let done = Ok::<(), R::Error>(());
        let before_last = constraints.drop_last();
        let (mid, before) = choose|mid: R, before: Result<(), R::Error>|
            #[trigger] imposes_next(
                mid,
                before,
                bytes[constraints.last().0 as int],
                constraints.last().1,
                post,
                done,
            ) && imposes(pre, bytes, before_last, mid, before);
        assert(before is Ok);
        assert(before->Ok_0 == ());
        let earlier = successful_work_goes_through(pre, bytes, before_last, mid);
        let regions = earlier.push(post);
        assert forall|k: int| 0 <= k < constraints.len() implies #[trigger] R::constrains_one(
            regions[k],
            bytes[constraints[k].0 as int],
            constraints[k].1,
            regions[k + 1],
            done,
        ) by {
            if k < before_last.len() {
                assert(before_last[k] == constraints[k]);
                assert(R::constrains_one(
                    earlier[k],
                    bytes[before_last[k].0 as int],
                    before_last[k].1,
                    earlier[k + 1],
                    done,
                ));
            } else {
                assert(regions[k] == mid);
            }
        }
        regions
    }
}

/// Work that succeeds has imposed every constraint, in order: there are regions,
/// one more than constraints, from `pre` to `post`, and each constraint led with
/// success from one to the next.
pub proof fn success_imposes_every_constraint<B, R: ConstrainConstant<B>>(
    pre: R,
    bytes: Seq<B>,
    constraints: Seq<(usize, u8)>,
    post: R,
)
    requires
        imposes(pre, bytes, constraints, post, Ok::<(), R::Error>(())),
    ensures
        exists|regions: Seq<R>|
            #![trigger regions.len()]
            {
                &&& regions.len() == constraints.len() + 1
                &&& regions[0] == pre
                &&& regions[constraints.len() as int] == post
                &&& forall|k: int|
                    0 <= k < constraints.len() ==> #[trigger] R::constrains_one(
                        regions[k],
                        bytes[constraints[k].0 as int],
                        constraints[k].1,
                        regions[k + 1],
                        Ok::<(), R::Error>(()),
                    )
            },
{
    let regions = successful_work_goes_through(pre, bytes, constraints, post);
    assert(regions.len() == constraints.len() + 1);
}

/// Work that fails has imposed the constraints before some one of them, in
/// order; that one failed, with the error of the reply, and left the region
/// `post`.
pub proof fn failure_imposes_every_constraint_before<B, R: ConstrainConstant<B>>(
    pre: R,
    bytes: Seq<B>,
    constraints: Seq<(usize, u8)>,
    post: R,
    e: R::Error,
)
    requires
        imposes(pre, bytes, constraints, post, Err::<(), R::Error>(e)),
    ensures
        exists|regions: Seq<R>|
            #![trigger regions.len()]
            {
                let count = regions.len() - 1;
                &&& 0 <= count < constraints.len()
                &&& regions[0] == pre
                &&& forall|k: int|
                    0 <= k < count ==> #[trigger] R::constrains_one(
                        regions[k],
                        bytes[constraints[k].0 as int],
                        constraints[k].1,
                        regions[k + 1],
                        Ok::<(), R::Error>(()),
                    )
                &&& R::constrains_one(
                    regions[count],
                    bytes[constraints[count].0 as int],
                    constraints[count].1,
                    post,
                    Err::<(), R::Error>(e),
                )
            },
{
    let (count, mid) = error_is_that_of_the_last_constraint_tried(
        pre,
        bytes,
        constraints,
        post,
        e,
    );
    let tried = constraints.take(count);
    let regions = successful_work_goes_through(pre, bytes, tried, mid);
    assert(regions.len() == count + 1);
    assert forall|k: int| 0 <= k < count implies #[trigger] R::constrains_one(
        regions[k],
        bytes[constraints[k].0 as int],
        constraints[k].1,
        regions[k + 1],
        Ok::<(), R::Error>(()),
    ) by {
        assert(tried[k] == constraints[k]);
        assert(R::constrains_one(
            regions[k],
            bytes[tried[k].0 as int],
            tried[k].1,
            regions[k + 1],
            Ok::<(), R::Error>(()),
        ));
    }
}

} // verus!
