//! What a tick means: the effect of the step modules and of the draw passes
//! on the store and on the painters, as relations between the state before
//! and the state after, and what follows from them.
//!
//! A module's function may answer differently from call to call as far as
//! its own contract allows, so each relation says that the state after is
//! one that the functions may have produced.

use vstd::prelude::*;

use crate::paint::Paint;
use crate::{Draw, Mod};

verus! {

/// The ids that the modules of `registry` govern.
pub open spec fn governed<G, F>(registry: Seq<(G, Mod<F>)>) -> Set<isize> {
    Set::new(
        |id: isize|
            exists|i: int| 0 <= i < registry.len() && (#[trigger] registry[i]).1.value@.contains(id),
    )
}

/// What one step module does to the store: each object it governs is
/// replaced by a value that its function gives for the time step, the id and
/// the object's old value; every other object stays as it was.
pub open spec fn stepped<T, S: Fn(u128, &isize, &T) -> T>(
    module: Mod<S>,
    delta_time: u128,
    before: Map<isize, T>,
    after: Map<isize, T>,
) -> bool {
    &&& after.dom() == before.dom()
    &&& forall|id: isize| #[trigger]
        before.contains_key(id) ==> if module.value@.contains(id) {
            call_ensures(module.function, (delta_time, &id, &before[id]), after[id])
        } else {
            after[id] == before[id]
        }
}

/// What the step modules of `registry` do to the store, one module after
/// another in the order of the registry.
pub open spec fn all_stepped<T, G, S: Fn(u128, &isize, &T) -> T>(
    registry: Seq<(G, Mod<S>)>,
    delta_time: u128,
    before: Map<isize, T>,
    after: Map<isize, T>,
) -> bool
    decreases registry.len(),
{
    if registry.len() == 0 {
        after == before
    } else {
        exists|between: Map<isize, T>|
            {
                &&& all_stepped(registry.drop_last(), delta_time, before, between)
                &&& stepped(registry.last().1, delta_time, between, after)
            }
    }
}

/// Whether the step function accepts every object at this time step.
pub open spec fn step_callable<T, S: Fn(u128, &isize, &T) -> T>(
    function: S,
    delta_time: u128,
) -> bool {
    forall|id: isize, value: T| call_requires(function, (delta_time, &id, &value))
}

/// Whether the function of every module of `registry` accepts every object
/// at this time step.
pub open spec fn steps_callable<T, G, S: Fn(u128, &isize, &T) -> T>(
    registry: Seq<(G, Mod<S>)>,
    delta_time: u128,
) -> bool {
    forall|i: int|
        0 <= i < registry.len() ==> step_callable((#[trigger] registry[i]).1.function, delta_time)
}

/// What drawing the objects named by `order`, one after another, does to
/// the painter and the store. A draw function takes the painter and an
/// object's value and gives both back: the painter with the object's
/// geometry written, the value with the handle to that geometry.
pub open spec fn drawn_in_order<T, D: Fn(Paint, &T) -> (Paint, T)>(
    function: D,
    order: Seq<isize>,
    paint_before: Paint,
    before: Map<isize, T>,
    paint_after: Paint,
    after: Map<isize, T>,
) -> bool
    decreases order.len(),
{
    if order.len() == 0 {
        paint_after == paint_before && after == before
    } else {
        exists|paint: Paint, between: Map<isize, T>, value: T|
            {
                &&& drawn_in_order(
                    function,
                    order.drop_last(),
                    paint_before,
                    before,
                    paint,
                    between,
                )
                &&& between.contains_key(order.last())
                &&& call_ensures(function, (paint, &between[order.last()]), (paint_after, value))
                &&& after == between.insert(order.last(), value)
            }
    }
}

/// What one draw module does: it draws each object it governs once, in some
/// order.
pub open spec fn module_drawn<T, D: Fn(Paint, &T) -> (Paint, T)>(
    module: Mod<D>,
    paint_before: Paint,
    before: Map<isize, T>,
    paint_after: Paint,
    after: Map<isize, T>,
) -> bool {
    exists|order: Seq<isize>|
        {
            &&& order.no_duplicates()
            &&& order.to_set() == module.value@
            &&& #[trigger] drawn_in_order(
                module.function,
                order,
                paint_before,
                before,
                paint_after,
                after,
            )
        }
}

/// What the draw modules of `registry` do to one painter and the store, one
/// module after another in the order of the registry.
pub open spec fn all_drawn<T, G, D: Fn(Paint, &T) -> (Paint, T)>(
    registry: Seq<(G, Mod<D>)>,
    paint_before: Paint,
    before: Map<isize, T>,
    paint_after: Paint,
    after: Map<isize, T>,
) -> bool
    decreases registry.len(),
{
    if registry.len() == 0 {
        paint_after == paint_before && after == before
    } else {
        exists|paint: Paint, between: Map<isize, T>|
            {
                &&& all_drawn(registry.drop_last(), paint_before, before, paint, between)
                &&& module_drawn(registry.last().1, paint, between, paint_after, after)
            }
    }
}

/// Whether the draw function accepts every painter and every object.
pub open spec fn draw_callable<T, D: Fn(Paint, &T) -> (Paint, T)>(function: D) -> bool {
    forall|paint: Paint, value: T| call_requires(function, (paint, &value))
}

/// Whether the function of every module of `registry` accepts every painter
/// and every object.
pub open spec fn draws_callable<T, G, D: Fn(Paint, &T) -> (Paint, T)>(
    registry: Seq<(G, Mod<D>)>,
) -> bool {
    forall|i: int| 0 <= i < registry.len() ==> draw_callable((#[trigger] registry[i]).1.function)
}

/// Whether the hooks of `pass` accept what a tick hands them, and its draw
/// functions every painter and every object.
pub open spec fn pass_callable<T, G, P, D: Fn(Paint, &T) -> (Paint, T), B: Fn(&P), A: Fn(&Paint)>(
    pass: Draw<G, P, D, B, A>,
) -> bool {
    &&& call_requires(pass.pre, (&pass.program,))
    &&& forall|paint: Paint| call_requires(pass.post, (&paint,))
    &&& draws_callable::<T, G, D>(pass.map@)
}

/// What a tick does to one draw pass and the store: the hook before has
/// run on the program, the modules have drawn into the painter of the pass,
/// the hook after has run on the painter as they left it, and nothing else
/// of the pass has changed.
pub open spec fn pass_drawn<T, G, P, D: Fn(Paint, &T) -> (Paint, T), B: Fn(&P), A: Fn(&Paint)>(
    pass: Draw<G, P, D, B, A>,
    before: Map<isize, T>,
    pass_after: Draw<G, P, D, B, A>,
    after: Map<isize, T>,
) -> bool {
    &&& pass_after.map == pass.map
    &&& pass_after.post == pass.post
    &&& pass_after.pre == pass.pre
    &&& pass_after.program == pass.program
    &&& call_ensures(pass.pre, (&pass.program,), ())
    &&& all_drawn(pass.map@, pass.paint, before, pass_after.paint, after)
    &&& call_ensures(pass.post, (&pass_after.paint,), ())
}

/// What a tick does to the draw passes and the store, one pass after
/// another in the order of `passes`.
pub open spec fn passes_drawn<T, G, P, D: Fn(Paint, &T) -> (Paint, T), B: Fn(&P), A: Fn(&Paint)>(
    passes: Seq<Draw<G, P, D, B, A>>,
    before: Map<isize, T>,
    passes_after: Seq<Draw<G, P, D, B, A>>,
    after: Map<isize, T>,
) -> bool
    decreases passes.len(),
{
    &&& passes_after.len() == passes.len()
    &&& if passes.len() == 0 {
        after == before
    } else {
        exists|between: Map<isize, T>|
            {
                &&& passes_drawn(passes.drop_last(), before, passes_after.drop_last(), between)
                &&& pass_drawn(passes.last(), between, passes_after.last(), after)
            }
    }
}

/// The step modules neither add nor remove an object, and leave alone
/// every object that none of them governs.
pub proof fn lemma_all_stepped_frame<T, G, S: Fn(u128, &isize, &T) -> T>(
    registry: Seq<(G, Mod<S>)>,
    delta_time: u128,
    before: Map<isize, T>,
    after: Map<isize, T>,
)
    requires
        all_stepped(registry, delta_time, before, after),
    ensures
        after.dom() == before.dom(),
        forall|id: isize|
            before.contains_key(id) && !governed(registry).contains(id) ==> after[id] == before[id],
    decreases registry.len(),
{
    if registry.len() > 0 {
        let between = choose|between: Map<isize, T>|
            {
                &&& all_stepped(registry.drop_last(), delta_time, before, between)
                &&& stepped(registry.last().1, delta_time, between, after)
            };
        lemma_all_stepped_frame(registry.drop_last(), delta_time, before, between);
    }
}

/// An object that exactly one step module governs ends the step phase with
/// a value that this module's function gives for the object's value before.
pub proof fn lemma_all_stepped_once<T, G, S: Fn(u128, &isize, &T) -> T>(
    registry: Seq<(G, Mod<S>)>,
    delta_time: u128,
    before: Map<isize, T>,
    after: Map<isize, T>,
    i: int,
    id: isize,
)
    requires
        all_stepped(registry, delta_time, before, after),
        before.contains_key(id),
        0 <= i < registry.len(),
        registry[i].1.value@.contains(id),
        forall|j: int| 0 <= j < registry.len() && j != i ==> !registry[j].1.value@.contains(id),
    ensures
        call_ensures(registry[i].1.function, (delta_time, &id, &before[id]), after[id]),
    decreases registry.len(),
{
    let shorter = registry.drop_last();
    let between = choose|between: Map<isize, T>|
        {
            &&& all_stepped(registry.drop_last(), delta_time, before, between)
            &&& stepped(registry.last().1, delta_time, between, after)
        };
    lemma_all_stepped_frame(shorter, delta_time, before, between);
    if i < registry.len() - 1 {
        lemma_all_stepped_once(shorter, delta_time, before, between, i, id);
    }
}

/// Drawing objects one after another neither adds nor removes an object,
/// and leaves alone every object that is not drawn.
pub proof fn lemma_drawn_in_order_frame<T, D: Fn(Paint, &T) -> (Paint, T)>(
    function: D,
    order: Seq<isize>,
    paint_before: Paint,
    before: Map<isize, T>,
    paint_after: Paint,
    after: Map<isize, T>,
)
    requires
        drawn_in_order(function, order, paint_before, before, paint_after, after),
    ensures
        after.dom() == before.dom(),
        forall|id: isize| before.contains_key(id) && !order.contains(id) ==> after[id] == before[id],
    decreases order.len(),
{
    if order.len() > 0 {
        let (paint, between, value) = choose|paint: Paint, between: Map<isize, T>, value: T|
            {
                &&& drawn_in_order(
                    function,
                    order.drop_last(),
                    paint_before,
                    before,
                    paint,
                    between,
                )
                &&& between.contains_key(order.last())
                &&& call_ensures(function, (paint, &between[order.last()]), (paint_after, value))
                &&& after == between.insert(order.last(), value)
            };
        lemma_drawn_in_order_frame(
            function,
            order.drop_last(),
            paint_before,
            before,
            paint,
            between,
        );
        assert forall|id: isize| before.contains_key(id) && !order.contains(id) implies after[id]
            == before[id] by {
            assert(order.drop_last().contains(id) ==> order.contains(id));
        }
    }
}

/// A draw module neither adds nor removes an object, and leaves alone
/// every object that it does not govern.
pub proof fn lemma_module_drawn_frame<T, D: Fn(Paint, &T) -> (Paint, T)>(
    module: Mod<D>,
    paint_before: Paint,
    before: Map<isize, T>,
    paint_after: Paint,
    after: Map<isize, T>,
)
    requires
        module_drawn(module, paint_before, before, paint_after, after),
    ensures
        after.dom() == before.dom(),
        forall|id: isize|
            before.contains_key(id) && !module.value@.contains(id) ==> after[id] == before[id],
{
    let order = choose|order: Seq<isize>|
        {
            &&& order.no_duplicates()
            &&& order.to_set() == module.value@
            &&& #[trigger] drawn_in_order(
                module.function,
                order,
                paint_before,
                before,
                paint_after,
                after,
            )
        };
    lemma_drawn_in_order_frame(module.function, order, paint_before, before, paint_after, after);
}

/// The draw modules of a pass neither add nor remove an object, and leave
/// alone every object that none of them governs.
pub proof fn lemma_all_drawn_frame<T, G, D: Fn(Paint, &T) -> (Paint, T)>(
    registry: Seq<(G, Mod<D>)>,
    paint_before: Paint,
    before: Map<isize, T>,
    paint_after: Paint,
    after: Map<isize, T>,
)
    requires
        all_drawn(registry, paint_before, before, paint_after, after),
    ensures
        after.dom() == before.dom(),
        forall|id: isize|
            before.contains_key(id) && !governed(registry).contains(id) ==> after[id] == before[id],
    decreases registry.len(),
{
    if registry.len() > 0 {
        let (paint, between) = choose|paint: Paint, between: Map<isize, T>|
            {
                &&& all_drawn(registry.drop_last(), paint_before, before, paint, between)
                &&& module_drawn(registry.last().1, paint, between, paint_after, after)
            };
        lemma_all_drawn_frame(registry.drop_last(), paint_before, before, paint, between);
        lemma_module_drawn_frame(registry.last().1, paint, between, paint_after, after);
    }
}

/// An object that is drawn once in a run of draws ends the run with a value
/// that the draw function gave back for its value before.
pub proof fn lemma_drawn_in_order_once<T, D: Fn(Paint, &T) -> (Paint, T)>(
    function: D,
    order: Seq<isize>,
    paint_before: Paint,
    before: Map<isize, T>,
    paint_after: Paint,
    after: Map<isize, T>,
    id: isize,
)
    requires
        drawn_in_order(function, order, paint_before, before, paint_after, after),
        order.no_duplicates(),
        order.contains(id),
        before.contains_key(id),
    ensures
        exists|paint: Paint, painted: Paint|
            call_ensures(function, (paint, &before[id]), (painted, after[id])),
    decreases order.len(),
{
    let shorter = order.drop_last();
    let (paint, between, value) = choose|paint: Paint, between: Map<isize, T>, value: T|
        {
            &&& drawn_in_order(function, order.drop_last(), paint_before, before, paint, between)
            &&& between.contains_key(order.last())
            &&& call_ensures(function, (paint, &between[order.last()]), (paint_after, value))
            &&& after == between.insert(order.last(), value)
        };
    lemma_drawn_in_order_frame(function, shorter, paint_before, before, paint, between);
    if order.last() == id {
        assert(!shorter.contains(id));
        assert(call_ensures(function, (paint, &before[id]), (paint_after, after[id])));
    } else {
        let i = choose|i: int| 0 <= i < order.len() && order[i] == id;
        assert(shorter[i] == id);
        lemma_drawn_in_order_once(function, shorter, paint_before, before, paint, between, id);
    }
}

/// An object that exactly one draw module of a pass governs ends the pass
/// with a value that this module's function gave back for its value
/// before.
pub proof fn lemma_all_drawn_once<T, G, D: Fn(Paint, &T) -> (Paint, T)>(
    registry: Seq<(G, Mod<D>)>,
    paint_before: Paint,
    before: Map<isize, T>,
    paint_after: Paint,
    after: Map<isize, T>,
    j: int,
    id: isize,
)
    requires
        all_drawn(registry, paint_before, before, paint_after, after),
        before.contains_key(id),
        0 <= j < registry.len(),
        registry[j].1.value@.contains(id),
        forall|i: int| 0 <= i < registry.len() && i != j ==> !registry[i].1.value@.contains(id),
    ensures
        exists|paint: Paint, painted: Paint|
            call_ensures(registry[j].1.function, (paint, &before[id]), (painted, after[id])),
    decreases registry.len(),
{
    let shorter = registry.drop_last();
    let module = registry.last().1;
    let (paint, between) = choose|paint: Paint, between: Map<isize, T>|
        {
            &&& all_drawn(registry.drop_last(), paint_before, before, paint, between)
            &&& module_drawn(registry.last().1, paint, between, paint_after, after)
        };
    lemma_all_drawn_frame(shorter, paint_before, before, paint, between);
    if j == registry.len() - 1 {
        let order = choose|order: Seq<isize>|
            {
                &&& order.no_duplicates()
                &&& order.to_set() == module.value@
                &&& #[trigger] drawn_in_order(
                    module.function,
                    order,
                    paint,
                    between,
                    paint_after,
                    after,
                )
            };
        lemma_drawn_in_order_once(module.function, order, paint, between, paint_after, after, id);
    } else {
        lemma_all_drawn_once(shorter, paint_before, before, paint, between, j, id);
        lemma_module_drawn_frame(module, paint, between, paint_after, after);
    }
}

/// The draw passes neither add nor remove an object, leave alone every
/// object that no module of theirs governs, and change nothing of a pass
/// but its painter.
pub proof fn lemma_passes_drawn_frame<
    T,
    G,
    P,
    D: Fn(Paint, &T) -> (Paint, T),
    B: Fn(&P),
    A: Fn(&Paint),
>(
    passes: Seq<Draw<G, P, D, B, A>>,
    before: Map<isize, T>,
    passes_after: Seq<Draw<G, P, D, B, A>>,
    after: Map<isize, T>,
)
    requires
        passes_drawn(passes, before, passes_after, after),
    ensures
        after.dom() == before.dom(),
        passes_after.len() == passes.len(),
        forall|k: int|
            0 <= k < passes.len() ==> {
                &&& (#[trigger] passes_after[k]).map == passes[k].map
                &&& passes_after[k].pre == passes[k].pre
                &&& passes_after[k].post == passes[k].post
                &&& passes_after[k].program == passes[k].program
            },
        forall|id: isize|
            before.contains_key(id) && (forall|k: int|
                0 <= k < passes.len() ==> !governed((#[trigger] passes[k]).map@).contains(id))
                ==> after[id] == before[id],
    decreases passes.len(),
{
    if passes.len() > 0 {
        let between = choose|between: Map<isize, T>|
            {
                &&& passes_drawn(passes.drop_last(), before, passes_after.drop_last(), between)
                &&& pass_drawn(passes.last(), between, passes_after.last(), after)
            };
        lemma_passes_drawn_frame(passes.drop_last(), before, passes_after.drop_last(), between);
        lemma_all_drawn_frame(
            passes.last().map@,
            passes.last().paint,
            between,
            passes_after.last().paint,
            after,
        );
        assert forall|k: int| 0 <= k < passes.len() implies {
            &&& (#[trigger] passes_after[k]).map == passes[k].map
            &&& passes_after[k].pre == passes[k].pre
            &&& passes_after[k].post == passes[k].post
            &&& passes_after[k].program == passes[k].program
        } by {
            if k < passes.len() - 1 {
                assert(passes_after.drop_last()[k] == passes_after[k]);
            }
        }
    }
}

/// An object that exactly one draw module of exactly one pass governs ends
/// the draw passes with a value that this module's function gave back for
/// its value before.
pub proof fn lemma_passes_drawn_once<
    T,
    G,
    P,
    D: Fn(Paint, &T) -> (Paint, T),
    B: Fn(&P),
    A: Fn(&Paint),
>(
    passes: Seq<Draw<G, P, D, B, A>>,
    before: Map<isize, T>,
    passes_after: Seq<Draw<G, P, D, B, A>>,
    after: Map<isize, T>,
    k: int,
    j: int,
    id: isize,
)
    requires
        passes_drawn(passes, before, passes_after, after),
        before.contains_key(id),
        0 <= k < passes.len(),
        0 <= j < passes[k].map@.len(),
        passes[k].map@[j].1.value@.contains(id),
        forall|i: int|
            0 <= i < passes[k].map@.len() && i != j ==> !passes[k].map@[i].1.value@.contains(id),
        forall|l: int|
            0 <= l < passes.len() && l != k ==> !governed((#[trigger] passes[l]).map@).contains(id),
    ensures
        exists|paint: Paint, painted: Paint|
            call_ensures(passes[k].map@[j].1.function, (paint, &before[id]), (painted, after[id])),
    decreases passes.len(),
{
    let shorter = passes.drop_last();
    let last = passes.last();
    let between = choose|between: Map<isize, T>|
        {
            &&& passes_drawn(passes.drop_last(), before, passes_after.drop_last(), between)
            &&& pass_drawn(passes.last(), between, passes_after.last(), after)
        };
    lemma_passes_drawn_frame(shorter, before, passes_after.drop_last(), between);
    if k == passes.len() - 1 {
        lemma_all_drawn_once(
            last.map@,
            last.paint,
            between,
            passes_after.last().paint,
            after,
            j,
            id,
        );
    } else {
        lemma_passes_drawn_once(shorter, before, passes_after.drop_last(), between, k, j, id);
        lemma_all_drawn_frame(
            last.map@,
            last.paint,
            between,
            passes_after.last().paint,
            after,
        );
    }
}

} // verus!
