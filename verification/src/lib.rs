//! A small real-time simulation engine: a vertex-buffer painter that lets
//! geometry be created once and overwritten in place, and a scheduler that
//! advances every simulated object and then redraws it, once per frame.
//!
//! Simulated objects live in a store keyed by object id. A module pairs one
//! function with the ids of the objects it governs. Each frame,
//! [`sim_round`] first lets every step module replace the value of each of
//! its objects, and then lets every draw pass paint its objects, threading
//! the pass's painter through the draw functions one object after another.
//!
//! A registry lists its modules with the identifiers that whoever assembles
//! it groups them by. The list gives the order in which the modules run; the
//! engine never reads an identifier, and does not ask that each occur once.

use std::collections::{HashMap, HashSet};
use vstd::prelude::*;
use vstd::std_specs::iter::IteratorSpec;

use crate::paint::Paint;
use crate::tick::{
    all_drawn, all_stepped, draw_callable, drawn_in_order, draws_callable, governed,
    lemma_all_stepped_frame, lemma_all_stepped_once, lemma_passes_drawn_frame,
    lemma_passes_drawn_once, module_drawn,
    pass_callable, pass_drawn, passes_drawn, step_callable, stepped, steps_callable,
};

pub mod drawable;
pub mod paint;
pub mod tick;

verus! {

/// A module: one function and the ids of the objects it governs.
pub struct Mod<F> {
    pub function: F,
    /// Ids of the governed objects, each a key of the store.
    pub value: HashSet<isize>,
}

/// A draw pass: the draw modules that share one program and one painter,
/// with the hooks that run before and after them.
pub struct Draw<G, P, D, B, A> {
    /// The draw modules with their identifiers, run in this order.
    pub map: Vec<(G, Mod<D>)>,
    /// Runs on the painter after the modules have drawn.
    pub post: A,
    /// Runs on the program before the modules draw.
    pub pre: B,
    pub program: P,
    pub paint: Paint,
}

/// The state of a simulation: the objects, and the modules that advance and
/// draw them.
pub struct Control<T, G, P, S, D, B, A> {
    pub index: isize,
    /// The simulated objects by id.
    pub data: HashMap<isize, T>,
    /// The draw passes, run in this order.
    pub draw: Vec<Draw<G, P, D, B, A>>,
    /// The step modules with their identifiers, run in this order.
    pub step: Vec<(G, Mod<S>)>,
}

/// Why a tick was refused.
#[derive(Clone, Copy, Debug, PartialEq, Eq, Structural)]
pub enum SimError {
    /// A module governs the object with this id, and the store holds no
    /// such object.
    MissingObject(isize),
}

/// The order in which a set of ids is walked holds each of its ids, once,
/// and nothing else.
proof fn lemma_walk_covers(ids: &HashSet<isize>)
    ensures
        ({
            let order = ids.iter().remaining();
            &&& order.no_duplicates()
            &&& order.unref().no_duplicates()
            &&& order.unref().to_set() == ids@
            &&& forall|k: isize| #[trigger]
                ids@.contains(k) ==> exists|i: int| 0 <= i < order.len() && *order[i] == k
            &&& forall|i: int| 0 <= i < order.len() ==> ids@.contains(*#[trigger] order[i])
        }),
{
    broadcast use vstd::std_specs::hash::group_hash_axioms;

    let order = ids.iter().remaining();
    assert forall|i: int| 0 <= i < order.len() implies ids@.contains(*#[trigger] order[i]) by {
        assert(order.unref().to_set().contains(order.unref()[i]));
    }
}

/// Looks for an object that `module` governs and `data` lacks.
fn module_missing<T, F>(module: &Mod<F>, data: &HashMap<isize, T>) -> (found: Option<isize>)
    ensures
        match found {
            Some(id) => module.value@.contains(id) && !data@.contains_key(id),
            None => module.value@.subset_of(data@.dom()),
        },
{
    broadcast use vstd::std_specs::hash::group_hash_axioms;

    proof {
        lemma_walk_covers(&module.value);
    }
    for id in it: module.value.iter()
        invariant
            forall|k: isize| #[trigger]
                module.value@.contains(k) ==> exists|i: int|
                    0 <= i < it.seq().len() && *it.seq()[i] == k,
            forall|i: int|
                0 <= i < it.seq().len() ==> module.value@.contains(*#[trigger] it.seq()[i]),
            forall|i: int| 0 <= i < it.index() ==> data@.contains_key(*#[trigger] it.seq()[i]),
    {
        if !data.contains_key(id) {
            return Some(*id);
        }
    }
    None
}

/// Looks for an object that a module of `registry` governs and `data` lacks.
fn registry_missing<T, G, F>(registry: &Vec<(G, Mod<F>)>, data: &HashMap<isize, T>) -> (found:
    Option<isize>)
    ensures
        match found {
            Some(id) => governed(registry@).contains(id) && !data@.contains_key(id),
            None => governed(registry@).subset_of(data@.dom()),
        },
{
    let mut i: usize = 0;
    while i < registry.len()
        invariant
            i <= registry.len(),
            forall|j: int| 0 <= j < i ==> (#[trigger] registry@[j]).1.value@.subset_of(data@.dom()),
        decreases registry.len() - i,
    {
        if let Some(id) = module_missing(&registry[i].1, data) {
            return Some(id);
        }
        i += 1;
    }
    None
}

/// Advances every object that `module` governs.
fn step_module<T, S: Fn(u128, &isize, &T) -> T>(
    delta_time: u128,
    data: &mut HashMap<isize, T>,
    module: &Mod<S>,
)
    requires
        step_callable(module.function, delta_time),
        module.value@.subset_of(old(data)@.dom()),
    ensures
        stepped(*module, delta_time, old(data)@, final(data)@),
{
    broadcast use vstd::std_specs::hash::group_hash_axioms;

    proof {
        lemma_walk_covers(&module.value);
    }
    for id in it: module.value.iter()
        invariant
            step_callable(module.function, delta_time),
            module.value@.subset_of(old(data)@.dom()),
            data@.dom() == old(data)@.dom(),
            it.seq().no_duplicates(),
            forall|k: isize| #[trigger]
                module.value@.contains(k) ==> exists|i: int|
                    0 <= i < it.seq().len() && *it.seq()[i] == k,
            forall|i: int|
                0 <= i < it.seq().len() ==> module.value@.contains(*#[trigger] it.seq()[i]),
            forall|k: isize| #[trigger]
                old(data)@.contains_key(k) ==> if exists|i: int|
                    0 <= i < it.index() && *it.seq()[i] == k {
                    call_ensures(module.function, (delta_time, &k, &old(data)@[k]), data@[k])
                } else {
                    data@[k] == old(data)@[k]
                },
    {
        if let Some(value) = data.get(id) {
            let next = (module.function)(delta_time, id, value);
            data.insert(*id, next);
        }
    }
}

/// Runs the step modules of `registry` in order.
fn step_phase<T, G, S: Fn(u128, &isize, &T) -> T>(
    delta_time: u128,
    data: &mut HashMap<isize, T>,
    registry: &Vec<(G, Mod<S>)>,
)
    requires
        steps_callable(registry@, delta_time),
        governed(registry@).subset_of(old(data)@.dom()),
    ensures
        all_stepped(registry@, delta_time, old(data)@, final(data)@),
        final(data)@.dom() == old(data)@.dom(),
{
    let mut i: usize = 0;
    while i < registry.len()
        invariant
            i <= registry.len(),
            steps_callable(registry@, delta_time),
            governed(registry@).subset_of(old(data)@.dom()),
            data@.dom() == old(data)@.dom(),
            all_stepped(registry@.take(i as int), delta_time, old(data)@, data@),
        decreases registry.len() - i,
    {
        let module = &registry[i].1;
        step_module(delta_time, data, module);
        proof {
            let longer = registry@.take(i + 1);
            assert(longer.drop_last() =~= registry@.take(i as int));
            assert(longer.last() == registry@[i as int]);
        }
        i += 1;
    }
    assert(registry@.take(i as int) =~= registry@);
}

/// Draws every object that `module` governs.
fn draw_module<T, D: Fn(Paint, &T) -> (Paint, T)>(
    paint: Paint,
    data: &mut HashMap<isize, T>,
    module: &Mod<D>,
) -> (painted: Paint)
    requires
        draw_callable(module.function),
        module.value@.subset_of(old(data)@.dom()),
    ensures
        module_drawn(*module, paint, old(data)@, painted, final(data)@),
        final(data)@.dom() == old(data)@.dom(),
{
    broadcast use vstd::std_specs::hash::group_hash_axioms;

    proof {
        lemma_walk_covers(&module.value);
    }
    let mut paint = paint;
    let ghost first = paint;
    for id in it: module.value.iter()
        invariant
            draw_callable(module.function),
            module.value@.subset_of(old(data)@.dom()),
            data@.dom() == old(data)@.dom(),
            it.seq() == module.value.iter().remaining(),
            forall|i: int|
                0 <= i < it.seq().len() ==> module.value@.contains(*#[trigger] it.seq()[i]),
            drawn_in_order(
                module.function,
                it.seq().unref().take(it.index()),
                first,
                old(data)@,
                paint,
                data@,
            ),
    {
        if let Some(value) = data.get(id) {
            let (painted, next) = (module.function)(paint, value);
            paint = painted;
            data.insert(*id, next);
            proof {
                let longer = it.seq().unref().take(it.index() + 1);
                assert(longer.drop_last() =~= it.seq().unref().take(it.index()));
                assert(longer.last() == *id);
            }
        }
    }
    proof {
        let order = module.value.iter().remaining().unref();
        assert(order.take(order.len() as int) =~= order);
    }
    paint
}

/// Runs the draw modules of `registry` in order on one painter.
fn draw_modules<T, G, D: Fn(Paint, &T) -> (Paint, T)>(
    paint: Paint,
    data: &mut HashMap<isize, T>,
    registry: &Vec<(G, Mod<D>)>,
) -> (painted: Paint)
    requires
        draws_callable(registry@),
        governed(registry@).subset_of(old(data)@.dom()),
    ensures
        all_drawn(registry@, paint, old(data)@, painted, final(data)@),
        final(data)@.dom() == old(data)@.dom(),
{
    let mut paint = paint;
    let ghost first = paint;
    let mut i: usize = 0;
    while i < registry.len()
        invariant
            i <= registry.len(),
            draws_callable(registry@),
            governed(registry@).subset_of(old(data)@.dom()),
            data@.dom() == old(data)@.dom(),
            all_drawn(registry@.take(i as int), first, old(data)@, paint, data@),
        decreases registry.len() - i,
    {
        let module = &registry[i].1;
        paint = draw_module(paint, data, module);
        proof {
            let longer = registry@.take(i + 1);
            assert(longer.drop_last() =~= registry@.take(i as int));
            assert(longer.last() == registry@[i as int]);
        }
        i += 1;
    }
    assert(registry@.take(i as int) =~= registry@);
    paint
}

/// Runs one draw pass: the hook before, the draw modules in order on the
/// painter of the pass, the hook after.
fn draw_pass<T, G, P, D: Fn(Paint, &T) -> (Paint, T), B: Fn(&P), A: Fn(&Paint)>(
    pass: &mut Draw<G, P, D, B, A>,
    data: &mut HashMap<isize, T>,
)
    requires
        pass_callable::<T, G, P, D, B, A>(*old(pass)),
        governed(old(pass).map@).subset_of(old(data)@.dom()),
    ensures
        pass_drawn(*old(pass), old(data)@, *final(pass), final(data)@),
        final(data)@.dom() == old(data)@.dom(),
{
    (pass.pre)(&pass.program);
    let mut paint = Paint::new(&pass.paint.vertex_buffer_object());
    core::mem::swap(&mut pass.paint, &mut paint);
    pass.paint = draw_modules(paint, data, &pass.map);
    (pass.post)(&pass.paint);
}

impl<T, G, P, S, D, B, A> Control<T, G, P, S, D, B, A> where
    S: Fn(u128, &isize, &T) -> T,
    D: Fn(Paint, &T) -> (Paint, T),
    B: Fn(&P),
    A: Fn(&Paint),
{
    /// Whether some module, a step module or one of a draw pass, governs
    /// the object `id`.
    pub open spec fn governs(&self, id: isize) -> bool {
        ||| governed(self.step@).contains(id)
        ||| exists|k: int|
            0 <= k < self.draw@.len() && governed((#[trigger] self.draw@[k]).map@).contains(id)
    }

    /// Whether a module governs the object `id` and the store lacks it.
    pub open spec fn missing(&self, id: isize) -> bool {
        self.governs(id) && !self.data@.contains_key(id)
    }

    /// Whether the store holds every object that a module governs.
    pub open spec fn wired(&self) -> bool {
        forall|id: isize| self.governs(id) ==> self.data@.contains_key(id)
    }

    /// Whether every function and hook accepts what a tick of this time
    /// step may hand it.
    pub open spec fn callable(&self, delta_time: u128) -> bool {
        &&& steps_callable(self.step@, delta_time)
        &&& forall|k: int|
            0 <= k < self.draw@.len() ==> pass_callable::<T, G, P, D, B, A>(#[trigger] self.draw@[k])
    }

    /// Whether `after` is what one tick of `delta_time` makes of this
    /// state: the step modules ran in order on the store, then the draw
    /// passes in order on what the steps left.
    pub open spec fn ticked(&self, delta_time: u128, after: Self) -> bool {
        &&& after.index == self.index
        &&& after.step == self.step
        &&& after.data@.dom() == self.data@.dom()
        &&& exists|between: Map<isize, T>|
            {
                &&& all_stepped(self.step@, delta_time, self.data@, between)
                &&& passes_drawn(self.draw@, between, after.draw@, after.data@)
            }
    }

    /// A tick neither adds nor removes an object, leaves alone every object
    /// that no module governs, and changes nothing of a draw pass but its
    /// painter.
    pub proof fn lemma_tick_frame(self, delta_time: u128, after: Self)
        requires
            self.ticked(delta_time, after),
        ensures
            after.data@.dom() == self.data@.dom(),
            after.index == self.index,
            after.step == self.step,
            after.draw@.len() == self.draw@.len(),
            forall|k: int|
                0 <= k < self.draw@.len() ==> {
                    &&& (#[trigger] after.draw@[k]).map == self.draw@[k].map
                    &&& after.draw@[k].pre == self.draw@[k].pre
                    &&& after.draw@[k].post == self.draw@[k].post
                    &&& after.draw@[k].program == self.draw@[k].program
                },
            forall|id: isize|
                self.data@.contains_key(id) && !self.governs(id) ==> after.data@[id]
                    == self.data@[id],
    {
        let between = choose|between: Map<isize, T>|
            {
                &&& all_stepped(self.step@, delta_time, self.data@, between)
                &&& passes_drawn(self.draw@, between, after.draw@, after.data@)
            };
        lemma_all_stepped_frame(self.step@, delta_time, self.data@, between);
        lemma_passes_drawn_frame(self.draw@, between, after.draw@, after.data@);
    }

    /// An object that exactly one step module governs, and no draw module,
    /// has after a tick a value that this module's function gives for the
    /// time step, the object's id and its value before.
    pub proof fn lemma_tick_steps_once(self, delta_time: u128, after: Self, i: int, id: isize)
        requires
            self.ticked(delta_time, after),
            self.data@.contains_key(id),
            0 <= i < self.step@.len(),
            self.step@[i].1.value@.contains(id),
            forall|j: int| 0 <= j < self.step@.len() && j != i ==> !self.step@[j].1.value@.contains(id),
            forall|k: int|
                0 <= k < self.draw@.len() ==> !governed((#[trigger] self.draw@[k]).map@).contains(
                    id,
                ),
        ensures
            call_ensures(
                self.step@[i].1.function,
                (delta_time, &id, &self.data@[id]),
                after.data@[id],
            ),
    {
        let between = choose|between: Map<isize, T>|
            {
                &&& all_stepped(self.step@, delta_time, self.data@, between)
                &&& passes_drawn(self.draw@, between, after.draw@, after.data@)
            };
        lemma_all_stepped_once(self.step@, delta_time, self.data@, between, i, id);
        lemma_all_stepped_frame(self.step@, delta_time, self.data@, between);
        lemma_passes_drawn_frame(self.draw@, between, after.draw@, after.data@);
    }

    /// An object that exactly one draw module governs has after a tick a
    /// value that this module's function gave back; where no step module
    /// governs the object, the function gave it back for the object's value
    /// before the tick.
    pub proof fn lemma_tick_draws_once(
        self,
        delta_time: u128,
        after: Self,
        k: int,
        j: int,
        id: isize,
    )
        requires
            self.ticked(delta_time, after),
            self.data@.contains_key(id),
            0 <= k < self.draw@.len(),
            0 <= j < self.draw@[k].map@.len(),
            self.draw@[k].map@[j].1.value@.contains(id),
            forall|i: int|
                0 <= i < self.draw@[k].map@.len() && i != j ==> !self.draw@[k].map@[i].1.value@.contains(
                    id,
                ),
            forall|l: int|
                0 <= l < self.draw@.len() && l != k ==> !governed(
                    (#[trigger] self.draw@[l]).map@,
                ).contains(id),
        ensures
            exists|paint: Paint, value: T, painted: Paint|
                {
                    &&& call_ensures(
                        self.draw@[k].map@[j].1.function,
                        (paint, &value),
                        (painted, after.data@[id]),
                    )
                    &&& !governed(self.step@).contains(id) ==> value == self.data@[id]
                },
    {
        let between = choose|between: Map<isize, T>|
            {
                &&& all_stepped(self.step@, delta_time, self.data@, between)
                &&& passes_drawn(self.draw@, between, after.draw@, after.data@)
            };
        lemma_all_stepped_frame(self.step@, delta_time, self.data@, between);
        lemma_passes_drawn_once(self.draw@, between, after.draw@, after.data@, k, j, id);
        let function = self.draw@[k].map@[j].1.function;
    }

    /// Looks for an object that a module governs and the store lacks.
    pub fn missing_object(&self) -> (found: Option<isize>)
        ensures
            match found {
                Some(id) => self.missing(id),
                None => self.wired(),
            },
    {
        if let Some(id) = registry_missing(&self.step, &self.data) {
            return Some(id);
        }
        let mut k: usize = 0;
        while k < self.draw.len()
            invariant
                k <= self.draw.len(),
                forall|j: int|
                    0 <= j < k ==> governed((#[trigger] self.draw@[j]).map@).subset_of(
                        self.data@.dom(),
                    ),
            decreases self.draw.len() - k,
        {
            if let Some(id) = registry_missing(&self.draw[k].map, &self.data) {
                return Some(id);
            }
            k += 1;
        }
        None
    }
}

/// Runs one tick: every step module advances the objects it governs, then
/// every draw pass draws the objects of its modules.
///
/// The step modules run in the order of the registry; a step function gets
/// the elapsed time as it was handed in, the object's id and its value, and
/// its answer replaces the value. The draw passes run in order after that;
/// each runs its hook on its program, then its draw modules in order, then
/// its hook on its painter. A draw function gets the painter of its pass
/// and the object's value and gives both back; that is how the handle of
/// what it painted finds its way into the store. Within one module the
/// objects are visited in no particular order, each once.
///
/// A tick runs whole or not at all. Where a module governs an object that
/// the store lacks, nothing is run, nothing changes, and the error names
/// such an object.
pub fn sim_round<T, G, P, S, D, B, A>(
    delta_time: u128,
    control: &mut Control<T, G, P, S, D, B, A>,
) -> (outcome: Result<(), SimError>) where
    S: Fn(u128, &isize, &T) -> T,
    D: Fn(Paint, &T) -> (Paint, T),
    B: Fn(&P),
    A: Fn(&Paint),

    requires
        old(control).callable(delta_time),
    ensures
        outcome is Ok <==> old(control).wired(),
        outcome is Ok ==> old(control).ticked(delta_time, *final(control)),
        outcome matches Err(SimError::MissingObject(id)) ==> {
            &&& old(control).missing(id)
            &&& *final(control) == *old(control)
        },
{
    if let Some(id) = control.missing_object() {
        return Err(SimError::MissingObject(id));
    }
    step_phase(delta_time, &mut control.data, &control.step);
    let ghost stepped_data = control.data@;
    let mut k: usize = 0;
    while k < control.draw.len()
        invariant
            k <= control.draw.len(),
            control.draw.len() == old(control).draw.len(),
            control.index == old(control).index,
            control.step == old(control).step,
            control.data@.dom() == old(control).data@.dom(),
            old(control).callable(delta_time),
            old(control).wired(),
            forall|j: int| k <= j < control.draw.len() ==> control.draw@[j] == old(control).draw@[j],
            passes_drawn(
                old(control).draw@.take(k as int),
                stepped_data,
                control.draw@.take(k as int),
                control.data@,
            ),
        decreases control.draw.len() - k,
    {
        let ghost between = control.data@;
        let ghost passes_between = control.draw@;
        draw_pass(&mut control.draw[k], &mut control.data);
        proof {
            let before = old(control).draw@.take(k + 1);
            let after = control.draw@.take(k + 1);
            assert(before.drop_last() =~= old(control).draw@.take(k as int));
            assert(after.drop_last() =~= passes_between.take(k as int));
            assert(pass_drawn(before.last(), between, after.last(), control.data@));
        }
        k += 1;
    }
    proof {
        assert(old(control).draw@.take(k as int) =~= old(control).draw@);
        assert(control.draw@.take(k as int) =~= control.draw@);
    }
    Ok(())
}

} // verus!
