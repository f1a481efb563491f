//! A two-dimensional cellular automaton on a torus, with cell values taken
//! modulo a chosen number.

use rand::Rng;
use vstd::prelude::*;

verus! {

/// Number of cells along each side of the grid.
pub const COUNT: usize = 121;

/// Smallest modulus that [`CA2dim::set_mod_rand`] picks.
pub const MOD_MIN: usize = 4;

/// Bound below which [`CA2dim::set_mod_rand`] picks the modulus.
pub const MOD_END: usize = 40;

/// The grid right after set-up: a single 1 in the middle, 0 elsewhere.
pub open spec fn seed_cell(i: int, j: int) -> usize {
    if i == COUNT / 2 && j == COUNT / 2 {
        1
    } else {
        0
    }
}

/// The index before `i` on a ring of [`COUNT`] cells.
pub open spec fn before(i: int) -> int {
    (i + COUNT - 1) % (COUNT as int)
}

/// The index after `i` on a ring of [`COUNT`] cells.
pub open spec fn after(i: int) -> int {
    (i + 1) % (COUNT as int)
}

/// What an automaton holds: the value of every cell, row by row, and the
/// modulus.
pub struct GridView {
    pub cells: Seq<Seq<usize>>,
    pub modulus: usize,
}

impl GridView {
    /// The grid has [`COUNT`] rows of [`COUNT`] cells.
    pub open spec fn square(self) -> bool {
        &&& self.cells.len() == COUNT
        &&& forall|i: int| 0 <= i < COUNT ==> (#[trigger] self.cells[i]).len() == COUNT
    }

    /// Sum of a cell and its four neighbours, the grid wrapping around at
    /// its edges.
    pub open spec fn neighbourhood(self, i: int, j: int) -> int {
        self.cells[before(i)][j] + self.cells[i][before(j)] + self.cells[i][j]
            + self.cells[i][after(j)] + self.cells[after(i)][j]
    }

    /// Value of a cell in the next generation.
    pub open spec fn next_cell(self, i: int, j: int) -> int {
        self.neighbourhood(i, j) % (self.modulus as int)
    }

    /// Whether `next` is the generation that follows this one.
    pub open spec fn steps_to(self, next: GridView) -> bool {
        &&& next.square()
        &&& next.modulus == self.modulus
        &&& forall|i: int, j: int|
            0 <= i < COUNT && 0 <= j < COUNT ==> #[trigger] next.cells[i][j] == self.next_cell(
                i,
                j,
            )
    }

    /// Whether this is the grid of a freshly seeded automaton.
    pub open spec fn seeded(self) -> bool {
        &&& self.square()
        &&& forall|i: int, j: int|
            0 <= i < COUNT && 0 <= j < COUNT ==> #[trigger] self.cells[i][j] == seed_cell(i, j)
    }
}

/// Picks a number in `low..high` at random.
///
/// Calls `rand::Rng::gen_range` on `rand::thread_rng()`. The contract claims
/// what the documentation of `gen_range` states: the value lies in the
/// half-open range from `low` to `high`. Nothing is claimed about which value
/// of the range comes out. `gen_range` panics when `low >= high`, and
/// `thread_rng` when the operating system yields no seed.
#[verifier::external_body]
fn random_below(low: usize, high: usize) -> (n: usize)
    requires
        low < high,
    ensures
        low <= n < high,
{
    rand::thread_rng().gen_range(low, high)
}

/// A cellular automaton on a [`COUNT`] by [`COUNT`] torus.
#[derive(Debug)]
pub struct CA2dim {
    state: Vec<Vec<usize>>,
    mod_: usize,
}

impl View for CA2dim {
    type V = GridView;

    closed spec fn view(&self) -> GridView {
        GridView { cells: rows_of(self.state@), modulus: self.mod_ }
    }
}

/// The cell values of a grid stored as a vector of rows.
pub open spec fn rows_of(state: Seq<Vec<usize>>) -> Seq<Seq<usize>> {
    state.map_values(|row: Vec<usize>| row@)
}

fn seed() -> (state: Vec<Vec<usize>>)
    ensures
        (GridView { cells: rows_of(state@), modulus: 0 }).seeded(),
{
    let mut state: Vec<Vec<usize>> = Vec::new();
    let mut i: usize = 0;
    while i < COUNT
        invariant
            i <= COUNT,
            state@.len() == i,
            forall|k: int| 0 <= k < i ==> (#[trigger] state@[k])@.len() == COUNT,
            forall|k: int, j: int|
                0 <= k < i && 0 <= j < COUNT ==> #[trigger] state@[k]@[j] == seed_cell(k, j),
        decreases COUNT - i,
    {
        let mut row = vec![0usize; COUNT];
        if i == COUNT / 2 {
            row.set(COUNT / 2, 1);
        }
        state.push(row);
        i += 1;
    }
    assert forall|k: int| 0 <= k < COUNT implies (#[trigger] rows_of(state@)[k]).len()
        == COUNT by {
        assert(rows_of(state@)[k] == state@[k]@);
    }
    assert forall|k: int, j: int| 0 <= k < COUNT && 0 <= j < COUNT implies #[trigger] rows_of(
        state@,
    )[k][j] == seed_cell(k, j) by {
        assert(rows_of(state@)[k] == state@[k]@);
    }
    state
}

impl CA2dim {
    #[verifier::type_invariant]
    spec fn square(self) -> bool {
        &&& self.state@.len() == COUNT
        &&& forall|i: int| 0 <= i < COUNT ==> (#[trigger] self.state@[i])@.len() == COUNT
    }

    /// A seeded automaton whose cells are taken modulo `mod_`.
    pub fn new(mod_: usize) -> (ca: CA2dim)
        ensures
            ca@.seeded(),
            ca@.modulus == mod_,
    {
        let state = seed();
        proof {
            assert forall|i: int| 0 <= i < COUNT implies (#[trigger] state@[i])@.len() == COUNT by {
                assert(rows_of(state@)[i] == state@[i]@);
            }
        }
        CA2dim { state, mod_ }
    }

    /// Puts the grid back to its seed and keeps the modulus.
    pub fn initialize(&mut self)
        ensures
            final(self)@.seeded(),
            final(self)@.modulus == old(self)@.modulus,
    {
        let state = seed();
        proof {
            assert forall|i: int| 0 <= i < COUNT implies (#[trigger] state@[i])@.len() == COUNT by {
                assert(rows_of(state@)[i] == state@[i]@);
            }
        }
        self.state = state;
    }

    /// The modulus.
    pub fn modulus(&self) -> (m: usize)
        ensures
            m == self@.modulus,
    {
        self.mod_
    }

    /// Value of the cell in row `i` and column `j`.
    pub fn cell(&self, i: usize, j: usize) -> (v: usize)
        requires
            i < COUNT,
            j < COUNT,
        ensures
            v == self@.cells[i as int][j as int],
            self@.square(),
    {
        proof {
            use_type_invariant(self);
            self.lemma_view_is_square();
        }
        self.state[i][j]
    }

    proof fn lemma_view_is_square(&self)
        requires
            self.square(),
        ensures
            self@.square(),
            forall|i: int| 0 <= i < COUNT ==> #[trigger] self@.cells[i] == self.state@[i]@,
    {
        assert forall|i: int| 0 <= i < COUNT implies #[trigger] self@.cells[i]
            == self.state@[i]@ by {}
    }

    /// Moves the grid on by one generation: every cell becomes the sum of
    /// itself and its four neighbours, modulo the modulus. The grid wraps
    /// around at its edges.
    pub fn update(&mut self)
        requires
            old(self)@.modulus > 0,
        ensures
            old(self)@.steps_to(final(self)@),
    {
        proof {
            use_type_invariant(&*self);
            self.lemma_view_is_square();
        }
        let ghost grid = self@;
        let mut next_state: Vec<Vec<usize>> = Vec::new();
        let mut i: usize = 0;
        while i < COUNT
            invariant
                i <= COUNT,
                self@ == grid,
                grid.square(),
                grid.modulus > 0,
                self.square(),
                forall|k: int| 0 <= k < COUNT ==> #[trigger] grid.cells[k] == self.state@[k]@,
                next_state@.len() == i,
                forall|k: int| 0 <= k < i ==> (#[trigger] next_state@[k])@.len() == COUNT,
                forall|k: int, l: int|
                    0 <= k < i && 0 <= l < COUNT ==> #[trigger] next_state@[k]@[l]
                        == grid.next_cell(k, l),
            decreases COUNT - i,
        {
            let up = (i + COUNT - 1) % COUNT;
            let down = (i + 1) % COUNT;
            let mut row: Vec<usize> = Vec::new();
            let mut j: usize = 0;
            while j < COUNT
                invariant
                    j <= COUNT,
                    i < COUNT,
                    up == before(i as int),
                    down == after(i as int),
                    self@ == grid,
                    grid.square(),
                    grid.modulus > 0,
                    self.square(),
                    forall|k: int| 0 <= k < COUNT ==> #[trigger] grid.cells[k] == self.state@[k]@,
                    row@.len() == j,
                    forall|l: int| 0 <= l < j ==> #[trigger] row@[l] == grid.next_cell(i as int, l),
                decreases COUNT - j,
            {
                let left = (j + COUNT - 1) % COUNT;
                let right = (j + 1) % COUNT;
                let v: u128 = self.state[up][j] as u128 + self.state[i][left] as u128
                    + self.state[i][j] as u128 + self.state[i][right] as u128
                    + self.state[down][j] as u128;
                assert(v == grid.neighbourhood(i as int, j as int));
                let cell = (v % (self.mod_ as u128)) as usize;
                row.push(cell);
                j += 1;
            }
            next_state.push(row);
            i += 1;
        }
        self.state = next_state;
        proof {
            assert forall|k: int| 0 <= k < COUNT implies (#[trigger] self@.cells[k]).len()
                == COUNT by {
                assert(self@.cells[k] == self.state@[k]@);
            }
            assert forall|k: int, l: int| 0 <= k < COUNT && 0 <= l < COUNT implies #[trigger] self@.cells[k][l]
                == grid.next_cell(k, l) by {
                assert(self@.cells[k] == self.state@[k]@);
            }
        }
    }

    /// Sets the modulus and leaves the grid as it is.
    pub fn set_mod(&mut self, mod_: usize)
        ensures
            final(self)@.modulus == mod_,
            final(self)@.cells == old(self)@.cells,
    {
        proof {
            use_type_invariant(&*self);
        }
        self.mod_ = mod_;
    }

    /// Sets the modulus to a number picked at random from [`MOD_MIN`] up to,
    /// but not including, [`MOD_END`], and leaves the grid as it is.
    pub fn set_mod_rand(&mut self)
        ensures
            MOD_MIN <= final(self)@.modulus < MOD_END,
            final(self)@.cells == old(self)@.cells,
    {
        let picked = random_below(MOD_MIN, MOD_END);
        self.set_mod(picked);
    }
}

} // verus!
