//! Dense tables over the Easy21 state space.
//!
//! `V` maps a `State` to a value, `Q` maps a `(State, Action)` pair, both
//! through an affine encoding of `(player + 10, dealer + 10)` into one
//! backing vector.  Totals reachable through play stay in `-9..=31`, so
//! both axes cover `-10..=31` (42 cells) and every reachable state
//! indexes in bounds.

use vstd::prelude::*;

use crate::env::Action;
use crate::env::State;

verus! {

/// Cells per axis of the encoded state cube.
pub const TABLE_DIM: usize = 42;

/// Backing size of a `V` table.
pub const V_SIZE: usize = 1764;

/// Backing size of a `Q` table (one `V`-sized layer per action).
pub const Q_SIZE: usize = 3528;

/// The totals a table cell exists for.
pub open spec fn in_table(s: State) -> bool {
    &&& -10 <= s.player <= 31
    &&& -10 <= s.dealer <= 31
}

/// Flatten a point of the bounded cube `max0 x max1 x max2` (row `p1`,
/// bit `p0`, layer `p2`) to one index.
fn cube_index(p0: usize, p1: usize, p2: usize, max0: usize, max1: usize) -> (r: usize)
    requires
        max0 * max1 < 10000,
        p0 < max0,
        p1 < max1,
        p2 < 2,
    ensures
        r == p2 * max0 * max1 + p1 * max0 + p0,
        r < 2 * (max0 * max1),
{
    let layer = max0 * max1;
    proof {
        assert(p1 * max0 + p0 < max0 * max1 && p2 * (max0 * max1) <= max0 * max1) by (nonlinear_arith)
            requires p0 < max0 && p1 < max1 && p2 < 2;
        assert(p2 * (max0 * max1) == p2 * max0 * max1) by (nonlinear_arith);
    }
    p2 * layer + p1 * max0 + p0
}

/// Where a state's cell sits inside one `V`-sized layer.
pub open spec fn v_index(s: State) -> int {
    (s.dealer + 10) * 42 + (s.player + 10)
}

/// `0` for `Hit`, `1` for `Stick`.
pub open spec fn action_index(a: Action) -> int {
    match a {
        Action::Hit => 0,
        Action::Stick => 1,
    }
}

/// Where a `(state, action)` cell sits inside a `Q` table.
pub open spec fn q_index(s: State, a: Action) -> int {
    action_index(a) * 1764 + v_index(s)
}

pub proof fn lemma_v_index_bounds(s: State)
    requires
        in_table(s),
    ensures
        0 <= v_index(s) < 1764,
{
    assert(0 <= (s.dealer + 10) * 42 <= 41 * 42) by (nonlinear_arith)
        requires 0 <= s.dealer + 10 <= 41;
}

/// A dense value table indexed by `State`.
#[derive(Clone)]
pub struct V<T>(pub Vec<T>);

impl<T> View for V<T> {
    type V = Seq<T>;

    open spec fn view(&self) -> Seq<T> {
        self.0@
    }
}

impl<T: Copy> V<T> {
    /// The backing vector covers the whole encoded range.
    pub open spec fn wf(&self) -> bool {
        self@.len() == 1764
    }

    /// A table holding `v` everywhere.
    pub fn init(v: T) -> (r: Self)
        ensures
            r.wf(),
            forall|i: int| 0 <= i < r@.len() ==> r@[i] == v,
    {
        let mut data: Vec<T> = Vec::new();
        let mut i: usize = 0;
        while i < V_SIZE
            invariant
                i <= V_SIZE,
                data@.len() == i,
                forall|j: int| 0 <= j < data@.len() ==> data@[j] == v,
            decreases V_SIZE - i,
        {
            data.push(v);
            i = i + 1;
        }
        V(data)
    }

    pub(crate) fn index(state: &State) -> (r: usize)
        requires
            in_table(*state),
        ensures
            r == v_index(*state),
            r < 1764,
    {
        proof {
            lemma_v_index_bounds(*state);
        }
        cube_index((state.player + 10) as usize, (state.dealer + 10) as usize, 0, TABLE_DIM, TABLE_DIM)
    }

    /// An exact copy of the table.
    pub fn duplicate(&self) -> (r: Self)
        ensures
            r@ == self@,
    {
        let mut data: Vec<T> = Vec::new();
        let mut i: usize = 0;
        while i < self.0.len()
            invariant
                i <= self.0@.len(),
                data@.len() == i,
                forall|j: int| 0 <= j < i ==> data@[j] == self.0@[j],
            decreases self.0@.len() - i,
        {
            data.push(self.0[i]);
            i = i + 1;
        }
        proof {
            assert(data@ =~= self.0@);
        }
        V(data)
    }

    /// The value stored for `state`.
    pub fn get(&self, state: &State) -> (r: T)
        requires
            self.wf(),
            in_table(*state),
        ensures
            r == self@[v_index(*state)],
    {
        self.0[Self::index(state)]
    }

    /// Store `v` for `state`.
    pub fn set(&mut self, state: &State, v: T)
        requires
            old(self).wf(),
            in_table(*state),
        ensures
            final(self).wf(),
            final(self)@ == old(self)@.update(v_index(*state), v),
    {
        let i = Self::index(state);
        self.0.set(i, v);
    }

    /// Replace the value stored for `state` by `f` of it.
    pub fn update<F: Fn(T) -> T>(&mut self, state: &State, f: F)
        requires
            old(self).wf(),
            in_table(*state),
            forall|x: T| call_requires(f, (x,)),
        ensures
            final(self).wf(),
            final(self)@.len() == old(self)@.len(),
            call_ensures(f, (old(self)@[v_index(*state)],), final(self)@[v_index(*state)]),
            forall|i: int| 0 <= i < old(self)@.len() && i != v_index(*state)
                ==> final(self)@[i] == old(self)@[i],
    {
        let i = Self::index(state);
        let x = self.0[i];
        let y = f(x);
        self.0.set(i, y);
    }

    /// Replace every value by `f` of it.
    pub fn map<F: Fn(T) -> T>(&mut self, f: F)
        requires
            old(self).wf(),
            forall|x: T| call_requires(f, (x,)),
        ensures
            final(self).wf(),
            forall|i: int| 0 <= i < old(self)@.len()
                ==> call_ensures(f, (old(self)@[i],), #[trigger] final(self)@[i]),
    {
        let mut i: usize = 0;
        while i < self.0.len()
            invariant
                self@.len() == old(self)@.len(),
                i <= self@.len(),
                forall|j: int| 0 <= j < i
                    ==> call_ensures(f, (old(self)@[j],), #[trigger] self@[j]),
                forall|j: int| i <= j < self@.len() ==> self@[j] == old(self)@[j],
                forall|x: T| call_requires(f, (x,)),
            decreases self@.len() - i,
        {
            let x = self.0[i];
            let y = f(x);
            self.0.set(i, y);
            i = i + 1;
        }
    }

    /// Combine this table elementwise with another of the same shape.
    pub fn zip_with<U: Copy, F: Fn(T, U) -> T>(&mut self, other: &V<U>, f: F)
        requires
            old(self).wf(),
            other@.len() == old(self)@.len(),
            forall|x: T, u: U| call_requires(f, (x, u)),
        ensures
            final(self).wf(),
            forall|i: int| 0 <= i < old(self)@.len()
                ==> call_ensures(f, (old(self)@[i], other@[i]), #[trigger] final(self)@[i]),
    {
        let mut i: usize = 0;
        while i < self.0.len()
            invariant
                self@.len() == old(self)@.len(),
                other@.len() == old(self)@.len(),
                i <= self@.len(),
                forall|j: int| 0 <= j < i
                    ==> call_ensures(f, (old(self)@[j], other@[j]), #[trigger] self@[j]),
                forall|j: int| i <= j < self@.len() ==> self@[j] == old(self)@[j],
                forall|x: T, u: U| call_requires(f, (x, u)),
            decreases self@.len() - i,
        {
            let x = self.0[i];
            let u = other.0[i];
            let y = f(x, u);
            self.0.set(i, y);
            i = i + 1;
        }
    }
}

/// A dense value table indexed by `(State, Action)`.
#[derive(Clone)]
pub struct Q<T>(pub Vec<T>);

impl<T> View for Q<T> {
    type V = Seq<T>;

    open spec fn view(&self) -> Seq<T> {
        self.0@
    }
}

impl<T: Copy> Q<T> {
    /// The backing vector covers the whole encoded range.
    pub open spec fn wf(&self) -> bool {
        self@.len() == 3528
    }

    /// A table holding `v` everywhere.
    pub fn init(v: T) -> (r: Self)
        ensures
            r.wf(),
            forall|i: int| 0 <= i < r@.len() ==> r@[i] == v,
    {
        let mut data: Vec<T> = Vec::new();
        let mut i: usize = 0;
        while i < Q_SIZE
            invariant
                i <= Q_SIZE,
                data@.len() == i,
                forall|j: int| 0 <= j < data@.len() ==> data@[j] == v,
            decreases Q_SIZE - i,
        {
            data.push(v);
            i = i + 1;
        }
        Q(data)
    }

    pub(crate) fn index(state: &State, action: &Action) -> (r: usize)
        requires
            in_table(*state),
        ensures
            r == q_index(*state, *action),
            r < 3528,
    {
        proof {
            lemma_v_index_bounds(*state);
        }
        let layer: usize = match action {
            Action::Hit => 0,
            Action::Stick => 1,
        };
        cube_index((state.player + 10) as usize, (state.dealer + 10) as usize, layer, TABLE_DIM, TABLE_DIM)
    }

    /// An exact copy of the table.
    pub fn duplicate(&self) -> (r: Self)
        ensures
            r@ == self@,
    {
        let mut data: Vec<T> = Vec::new();
        let mut i: usize = 0;
        while i < self.0.len()
            invariant
                i <= self.0@.len(),
                data@.len() == i,
                forall|j: int| 0 <= j < i ==> data@[j] == self.0@[j],
            decreases self.0@.len() - i,
        {
            data.push(self.0[i]);
            i = i + 1;
        }
        proof {
            assert(data@ =~= self.0@);
        }
        Q(data)
    }

    /// The value stored for `(state, action)`.
    pub fn get(&self, state: &State, action: &Action) -> (r: T)
        requires
            self.wf(),
            in_table(*state),
        ensures
            r == self@[q_index(*state, *action)],
    {
        self.0[Self::index(state, action)]
    }

    /// Store `v` for `(state, action)`.
    pub fn set(&mut self, state: &State, action: &Action, v: T)
        requires
            old(self).wf(),
            in_table(*state),
        ensures
            final(self).wf(),
            final(self)@ == old(self)@.update(q_index(*state, *action), v),
    {
        let i = Self::index(state, action);
        self.0.set(i, v);
    }

    /// Replace the value stored for `(state, action)` by `f` of it.
    pub fn update<F: Fn(T) -> T>(&mut self, state: &State, action: &Action, f: F)
        requires
            old(self).wf(),
            in_table(*state),
            forall|x: T| call_requires(f, (x,)),
        ensures
            final(self).wf(),
            final(self)@.len() == old(self)@.len(),
            call_ensures(f, (old(self)@[q_index(*state, *action)],), final(self)@[q_index(*state, *action)]),
            forall|i: int| 0 <= i < old(self)@.len() && i != q_index(*state, *action)
                ==> final(self)@[i] == old(self)@[i],
    {
        let i = Self::index(state, action);
        let x = self.0[i];
        let y = f(x);
        self.0.set(i, y);
    }

    /// Replace every value by `f` of it.
    pub fn map<F: Fn(T) -> T>(&mut self, f: F)
        requires
            old(self).wf(),
            forall|x: T| call_requires(f, (x,)),
        ensures
            final(self).wf(),
            forall|i: int| 0 <= i < old(self)@.len()
                ==> call_ensures(f, (old(self)@[i],), #[trigger] final(self)@[i]),
    {
        let mut i: usize = 0;
        while i < self.0.len()
            invariant
                self@.len() == old(self)@.len(),
                i <= self@.len(),
                forall|j: int| 0 <= j < i
                    ==> call_ensures(f, (old(self)@[j],), #[trigger] self@[j]),
                forall|j: int| i <= j < self@.len() ==> self@[j] == old(self)@[j],
                forall|x: T| call_requires(f, (x,)),
            decreases self@.len() - i,
        {
            let x = self.0[i];
            let y = f(x);
            self.0.set(i, y);
            i = i + 1;
        }
    }

    /// Combine this table elementwise with another of the same shape.
    pub fn zip_with<U: Copy, F: Fn(T, U) -> T>(&mut self, other: &Q<U>, f: F)
        requires
            old(self).wf(),
            other@.len() == old(self)@.len(),
            forall|x: T, u: U| call_requires(f, (x, u)),
        ensures
            final(self).wf(),
            forall|i: int| 0 <= i < old(self)@.len()
                ==> call_ensures(f, (old(self)@[i], other@[i]), #[trigger] final(self)@[i]),
    {
        let mut i: usize = 0;
        while i < self.0.len()
            invariant
                self@.len() == old(self)@.len(),
                other@.len() == old(self)@.len(),
                i <= self@.len(),
                forall|j: int| 0 <= j < i
                    ==> call_ensures(f, (old(self)@[j], other@[j]), #[trigger] self@[j]),
                forall|j: int| i <= j < self@.len() ==> self@[j] == old(self)@[j],
                forall|x: T, u: U| call_requires(f, (x, u)),
            decreases self@.len() - i,
        {
            let x = self.0[i];
            let u = other.0[i];
            let y = f(x, u);
            self.0.set(i, y);
            i = i + 1;
        }
    }
}

} // verus!
