//! An observable value: one value, and the callbacks that hear of it after
//! every write.
//!
//! A write ends with one notification pass: every registered callback is
//! called once, in the order of registration, with the value as the write
//! left it. The pass runs whether or not the write changed anything.
//!
//! [`Watcher::update`] and [`Watcher::set`] are a whole write in one call:
//! they cannot be left without the pass. A [`WatcherGuard`] holds a write
//! open across statements; its pass runs when it is handed to
//! [`WatcherGuard::release`], and a guard that is dropped runs none. A write
//! that can leave early belongs in `update`.
//!
//! What the watcher did is kept in a ghost history of passes. The contracts
//! state the passes over it, and of each call that it returned.
//!
//! A callback cannot start a write on the watcher that is calling it: while a
//! pass runs the watcher is borrowed exclusively. The compiler refuses the
//! attempt; behind a `RefCell` the attempt panics.

use vstd::prelude::*;

verus! {

/// One notification pass: the value that was announced, and the callbacks that
/// were called, each by its place in the order of registration, in the order
/// of the calls.
pub ghost struct Pass<T> {
    pub value: T,
    pub order: Seq<int>,
}

/// The order in which `n` callbacks were registered: `0, 1, .., n - 1`.
pub open spec fn registration_order(n: nat) -> Seq<int> {
    Seq::new(n, |i: int| i)
}

/// A callback that may be called with any value.
pub open spec fn accepts_every_value<T, F: Fn(&T)>(f: F) -> bool {
    forall|v: T| #[trigger] call_requires(f, (&v,))
}

/// Each of the callbacks has returned from a call with `value`.
pub open spec fn heard<T, F: Fn(&T)>(callbacks: Seq<F>, value: T) -> bool {
    forall|k: int| 0 <= k < callbacks.len() ==> call_ensures(#[trigger] callbacks[k], (&value,), ())
}

/// A watcher, as the contracts see it: its value, its callbacks in the
/// order of registration, and the passes it has run, oldest first.
pub ghost struct WatcherState<T, F> {
    pub value: T,
    pub callbacks: Seq<F>,
    pub history: Seq<Pass<T>>,
}

impl<T, F> WatcherState<T, F> {
    /// A watcher fresh from its constructor.
    pub open spec fn initial(value: T) -> Self {
        WatcherState { value, callbacks: Seq::empty(), history: Seq::empty() }
    }

    /// `f` is registered after all the callbacks that are there.
    pub open spec fn register(self, f: F) -> Self {
        WatcherState { callbacks: self.callbacks.push(f), ..self }
    }

    /// The callbacks of `fs` are registered one after the other.
    pub open spec fn register_all(self, fs: Seq<F>) -> Self
        decreases fs.len(),
    {
        if fs.len() == 0 {
            self
        } else {
            self.register_all(fs.drop_last()).register(fs.last())
        }
    }

    /// The value is replaced inside a write; nobody has been told yet.
    pub open spec fn replace(self, value: T) -> Self {
        WatcherState { value, ..self }
    }

    /// One pass: every callback hears of the current value, in the order of
    /// registration.
    pub open spec fn notify(self) -> Self {
        WatcherState {
            history: self.history.push(
                Pass { value: self.value, order: registration_order(self.callbacks.len()) },
            ),
            ..self
        }
    }

    /// One whole write that leaves `value` behind.
    pub open spec fn write(self, value: T) -> Self {
        self.replace(value).notify()
    }

    /// One whole write for each value of `values`, in turn.
    pub open spec fn write_all(self, values: Seq<T>) -> Self
        decreases values.len(),
    {
        if values.len() == 0 {
            self
        } else {
            self.write_all(values.drop_last()).write(values.last())
        }
    }
}

/// A value and the callbacks to call after each write to it.
pub struct Watcher<T, F: Fn(&T)> {
    value: T,
    callbacks: Vec<F>,
    history: Ghost<Seq<Pass<T>>>,
}

/// Exclusive access to the value of a watcher, for the length of one write.
///
/// The write ends, and the callbacks run, when the guard is handed to
/// [`WatcherGuard::release`]. A guard that is merely dropped announces
/// nothing: a write that can be left early, by `return` or by `?`, is to be
/// made with [`Watcher::update`], which runs the pass however the write
/// ends.
#[must_use]
pub struct WatcherGuard<'a, T, F: Fn(&T)> {
    pub watcher: &'a mut Watcher<T, F>,
}

impl<T, F: Fn(&T)> View for Watcher<T, F> {
    type V = WatcherState<T, F>;

    closed spec fn view(&self) -> WatcherState<T, F> {
        WatcherState { value: self.value, callbacks: self.callbacks@, history: self.history@ }
    }
}

impl<T, F: Fn(&T)> Watcher<T, F> {
    /// Every registered callback may be called with any value.
    pub open spec fn wf(self) -> bool {
        forall|i: int|
            0 <= i < self@.callbacks.len() ==> accepts_every_value::<T, F>(
                #[trigger] self@.callbacks[i],
            )
    }

    /// A watcher of `value` with no callback.
    pub fn new(value: T) -> (w: Self)
        ensures
            w.wf(),
            w@ == WatcherState::<T, F>::initial(value),
    {
        Watcher { value, callbacks: Vec::new(), history: Ghost(Seq::empty()) }
    }

    /// Registers `f` behind the callbacks that are there. Nothing is called.
    pub fn connect_notify(&mut self, f: F)
        requires
            old(self).wf(),
            accepts_every_value::<T, F>(f),
        ensures
            final(self).wf(),
            final(self)@ == old(self)@.register(f),
    {
        self.callbacks.push(f);
    }

    /// Opens a write. Until the guard is released the watcher cannot be
    /// reached but through it.
    pub fn borrow_mut(&mut self) -> (guard: WatcherGuard<'_, T, F>)
        ensures
            *guard.watcher == *old(self),
            *final(self) == *final(guard.watcher),
    {
        WatcherGuard { watcher: self }
    }

    /// One whole write: stores `value`, then runs one pass, in which every
    /// callback is called with `value`.
    pub fn set(&mut self, value: T)
        requires
            old(self).wf(),
        ensures
            final(self).wf(),
            final(self)@ == old(self)@.write(value),
            heard(old(self)@.callbacks, value),
    {
        let mut guard = self.borrow_mut();
        *guard = value;
        guard.release();
    }

    /// One whole write made by `change`: the value becomes what `change`
    /// makes of it, then one pass runs, in which every callback is called
    /// with the new value. However `change` comes to its result, by its last
    /// line or by an early `return`, the pass runs.
    pub fn update<G: FnOnce(&T) -> T>(&mut self, change: G)
        requires
            old(self).wf(),
            call_requires(change, (&old(self)@.value,)),
        ensures
            final(self).wf(),
            call_ensures(change, (&old(self)@.value,), final(self)@.value),
            final(self)@ == old(self)@.write(final(self)@.value),
            heard(old(self)@.callbacks, final(self)@.value),
    {
        let value = change(&self.value);
        self.set(value);
    }
}

impl<T: Default, F: Fn(&T)> Default for Watcher<T, F> {
    /// A watcher of `T`'s default value with no callback.
    fn default() -> (w: Self)
        ensures
            w.wf(),
            call_ensures(T::default, (), w@.value),
            w@ == WatcherState::<T, F>::initial(w@.value),
    {
        Watcher { value: T::default(), callbacks: Vec::new(), history: Ghost(Seq::empty()) }
    }
}

impl<T, F: Fn(&T)> std::ops::Deref for Watcher<T, F> {
    type Target = T;

    /// The value, to read.
    fn deref(&self) -> (r: &T)
        ensures
            *r == self@.value,
    {
        &self.value
    }
}

impl<T, F: Fn(&T)> std::borrow::Borrow<T> for Watcher<T, F> {
    /// The value, to read.
    fn borrow(&self) -> &T {
        self
    }
}

impl<'a, T, F: Fn(&T)> std::ops::Deref for WatcherGuard<'a, T, F> {
    type Target = T;

    /// The value as the write has left it so far.
    fn deref(&self) -> (r: &T)
        ensures
            *r == old(self.watcher)@.value,
    {
        &self.watcher.value
    }
}

impl<'a, T, F: Fn(&T)> std::ops::DerefMut for WatcherGuard<'a, T, F> {
    /// The value, to change. Only the value can change through it.
    fn deref_mut(&mut self) -> (r: &mut T)
        ensures
            *r == old(self).watcher@.value,
            final(self).watcher@ == old(self).watcher@.replace(*final(r)),
            *final(final(self).watcher) == *final(old(self).watcher),
    {
        &mut self.watcher.value
    }
}

impl<'a, T, F: Fn(&T)> std::borrow::Borrow<T> for WatcherGuard<'a, T, F> {
    /// The value as the write has left it so far.
    fn borrow(&self) -> &T {
        self
    }
}

impl<'a, T, F: Fn(&T)> std::borrow::BorrowMut<T> for WatcherGuard<'a, T, F> {
    /// The value, to change.
    fn borrow_mut(&mut self) -> &mut T {
        self
    }
}

impl<'a, T, F: Fn(&T)> WatcherGuard<'a, T, F> {
    /// Ends the write and runs one pass: each callback is called once with
    /// the value, the first registered first.
    pub fn release(self)
        requires
            old(self.watcher).wf(),
        ensures
            final(self.watcher).wf(),
            final(self.watcher)@ == old(self.watcher)@.notify(),
            heard(old(self.watcher)@.callbacks, old(self.watcher)@.value),
    {
        let ghost mut order: Seq<int> = Seq::empty();
        let n = self.watcher.callbacks.len();
        let mut i: usize = 0;
        while i < n
            invariant
                i <= n,
                n == self.watcher.callbacks@.len(),
                self.watcher.wf(),
                *self.watcher == *old(self.watcher),
                order == registration_order(i as nat),
                forall|k: int|
                    0 <= k < i ==> call_ensures(
                        #[trigger] old(self.watcher)@.callbacks[k],
                        (&old(self.watcher)@.value,),
                        (),
                    ),
            decreases n - i,
        {
            assert(accepts_every_value::<T, F>(self.watcher@.callbacks[i as int]));
            (self.watcher.callbacks[i])(&self.watcher.value);
            proof {
                order = order.push(i as int);
            }
            i += 1;
        }
        proof {
            self.watcher.history@ = self.watcher.history@.push(
                Pass { value: self.watcher.value, order },
            );
            assert(self.watcher@.callbacks == old(self.watcher)@.callbacks);
        }
    }
}

/// However many writes are made, and whatever they store, each adds exactly
/// one pass: after the writes the history is longer by their number, the
/// passes that were there are untouched, and the pass of the `i`-th write
/// announced the `i`-th value to every callback, also where that value is the
/// one that was there before.
pub proof fn lemma_one_pass_per_write<T, F>(w: WatcherState<T, F>, values: Seq<T>)
    ensures
        w.write_all(values).callbacks == w.callbacks,
        w.write_all(values).history.len() == w.history.len() + values.len(),
        w.write_all(values).history.subrange(0, w.history.len() as int) == w.history,
        forall|i: int|
            0 <= i < values.len() ==> #[trigger] w.write_all(values).history[w.history.len() + i]
                == (Pass { value: values[i], order: registration_order(w.callbacks.len()) }),
        values.len() > 0 ==> w.write_all(values).value == values.last(),
        values.len() == 0 ==> w.write_all(values) == w,
    decreases values.len(),
{
    if values.len() > 0 {
        let front = values.drop_last();
        lemma_one_pass_per_write(w, front);
        let before = w.write_all(front);
        let after = w.write_all(values);
        assert(after == before.write(values.last()));
        assert(after.history.subrange(0, w.history.len() as int) =~= before.history.subrange(
            0,
            w.history.len() as int,
        ));
        assert forall|i: int| 0 <= i < values.len() implies #[trigger] after.history[w.history.len()
            + i] == (Pass { value: values[i], order: registration_order(w.callbacks.len()) }) by {
            if i < front.len() {
                assert(after.history[w.history.len() + i] == before.history[w.history.len() + i]);
                assert(front[i] == values[i]);
            }
        }
    } else {
        assert(w.history.subrange(0, w.history.len() as int) =~= w.history);
    }
}

/// Callbacks are called in the order in which they were registered: after
/// `fs` have been registered in turn they stand behind the earlier ones in
/// that order, and the `k`-th call of a pass goes to the `k`-th of them all.
pub proof fn lemma_notified_in_registration_order<T, F>(
    w: WatcherState<T, F>,
    fs: Seq<F>,
    value: T,
)
    ensures
        w.register_all(fs).callbacks == w.callbacks + fs,
        w.register_all(fs).value == w.value,
        w.register_all(fs).history == w.history,
        ({
            let pass = w.register_all(fs).write(value).history.last();
            &&& pass.value == value
            &&& pass.order.len() == w.callbacks.len() + fs.len()
            &&& forall|k: int| 0 <= k < pass.order.len() ==> #[trigger] pass.order[k] == k
        }),
    decreases fs.len(),
{
    if fs.len() > 0 {
        lemma_notified_in_registration_order(w, fs.drop_last(), value);
        assert(w.callbacks + fs =~= (w.callbacks + fs.drop_last()).push(fs.last()));
    } else {
        assert(w.callbacks + fs =~= w.callbacks);
    }
}

} // verus!
