//! The read-only action and goto tables that drive the automaton.

use vstd::arithmetic::div_mod::lemma_fundamental_div_mod_converse;
use vstd::prelude::*;

use crate::action::{is_accept_code, is_shift_code, Action, ACCEPT};

verus! {

/// Flattened action and goto tables, with their dimensions and the two
/// distinguished terminals: end of input and the error marker.
pub struct ParserTables {
    pub action_table: Vec<i64>,
    pub action_width: usize,
    pub goto_table: Vec<usize>,
    pub goto_width: usize,
    pub state_count: usize,
    pub end_terminal: usize,
    pub error_terminal: usize,
}

/// `row * width + col` lies inside a table of `rows * width` cells.
pub proof fn lemma_cell_in_table(row: int, col: int, rows: int, width: int)
    requires
        0 <= row < rows,
        0 <= col < width,
    ensures
        0 <= row * width + col < rows * width,
{
    assert(0 <= row * width) by (nonlinear_arith)
        requires
            0 <= row,
            0 <= width,
    ;
    assert(row * width + width <= rows * width) by (nonlinear_arith)
        requires
            row + 1 <= rows,
            0 <= width,
    ;
}

impl ParserTables {
    /// Dimensions agree with the table sizes, the distinguished terminals are
    /// distinct columns, every shift and goto target names a state, accept
    /// stands only in the end-of-input column and shift never does.
    pub open spec fn wf(&self) -> bool {
        &&& self.action_table@.len() == self.state_count * self.action_width
        &&& self.goto_table@.len() == self.state_count * self.goto_width
        &&& self.end_terminal < self.action_width
        &&& self.error_terminal < self.action_width
        &&& self.end_terminal != self.error_terminal
        &&& forall|i: int|
            0 <= i < self.action_table@.len() ==> self.cell_ok(i, #[trigger] self.action_table@[i])
        &&& forall|i: int|
            0 <= i < self.goto_table@.len() ==> #[trigger] self.goto_table@[i] < self.state_count
    }

    /// What a well-formed action cell at flat index `i` may hold.
    pub open spec fn cell_ok(&self, i: int, code: i64) -> bool {
        &&& is_shift_code(code) ==> code < self.state_count && i % (self.action_width as int)
            != self.end_terminal
        &&& is_accept_code(code) ==> i % (self.action_width as int) == self.end_terminal
    }

    /// The action code for `terminal` in `state`.
    pub open spec fn action_code(&self, state: int, terminal: int) -> i64 {
        self.action_table@[state * self.action_width + terminal]
    }

    /// The state reached from `state` after producing `nonterminal`.
    pub open spec fn goto_state(&self, state: int, nonterminal: int) -> usize {
        self.goto_table@[state * self.goto_width + nonterminal]
    }

    /// Validates the tables; `true` exactly when they are well formed.
    pub fn check(&self) -> (r: bool)
        ensures
            r == self.wf(),
    {
        let action_len = self.action_table.len();
        let goto_len = self.goto_table.len();
        match self.state_count.checked_mul(self.action_width) {
            Some(n) => {
                if n != action_len {
                    return false;
                }
            },
            None => {
                return false;
            },
        }
        match self.state_count.checked_mul(self.goto_width) {
            Some(n) => {
                if n != goto_len {
                    return false;
                }
            },
            None => {
                return false;
            },
        }
        if !(self.end_terminal < self.action_width && self.error_terminal < self.action_width
            && self.end_terminal != self.error_terminal) {
            return false;
        }
        let mut i: usize = 0;
        while i < self.action_table.len()
            invariant
                i <= self.action_table@.len(),
                self.action_table@.len() == self.state_count * self.action_width,
                self.goto_table@.len() == self.state_count * self.goto_width,
                self.end_terminal < self.action_width,
                self.error_terminal < self.action_width,
                self.end_terminal != self.error_terminal,
                forall|j: int| 0 <= j < i ==> self.cell_ok(j, #[trigger] self.action_table@[j]),
            decreases self.action_table@.len() - i,
        {
            let code = self.action_table[i];
            let column = i % self.action_width;
            if 0 <= code && (code as u64 >= self.state_count as u64 || column == self.end_terminal) {
                return false;
            }
            if code == ACCEPT && column != self.end_terminal {
                return false;
            }
            i = i + 1;
        }
        let mut k: usize = 0;
        while k < self.goto_table.len()
            invariant
                k <= self.goto_table@.len(),
                self.action_table@.len() == self.state_count * self.action_width,
                self.goto_table@.len() == self.state_count * self.goto_width,
                self.end_terminal < self.action_width,
                self.error_terminal < self.action_width,
                self.end_terminal != self.error_terminal,
                forall|j: int|
                    0 <= j < self.action_table@.len() ==> self.cell_ok(
                        j,
                        #[trigger] self.action_table@[j],
                    ),
                forall|j: int| 0 <= j < k ==> #[trigger] self.goto_table@[j] < self.state_count,
            decreases self.goto_table@.len() - k,
        {
            if self.goto_table[k] >= self.state_count {
                return false;
            }
            k = k + 1;
        }
        true
    }

    /// The action for `terminal` in `state`.
    pub fn action(&self, state: usize, terminal: usize) -> (r: Action)
        requires
            self.wf(),
            state < self.state_count,
            terminal < self.action_width,
        ensures
            r.0 == self.action_code(state as int, terminal as int),
    {
        proof {
            lemma_cell_in_table(
                state as int,
                terminal as int,
                self.state_count as int,
                self.action_width as int,
            );
        }
        let cells = self.action_table.len();
        proof {
            assert(state * self.action_width + terminal < cells);
        }
        Action(self.action_table[state * self.action_width + terminal])
    }

    /// The goto target from `state` on `nonterminal`.
    pub fn goto(&self, state: usize, nonterminal: usize) -> (r: usize)
        requires
            self.wf(),
            state < self.state_count,
            nonterminal < self.goto_width,
        ensures
            r == self.goto_state(state as int, nonterminal as int),
            r < self.state_count,
    {
        proof {
            lemma_cell_in_table(
                state as int,
                nonterminal as int,
                self.state_count as int,
                self.goto_width as int,
            );
        }
        let cells = self.goto_table.len();
        proof {
            assert(state * self.goto_width + nonterminal < cells);
        }
        self.goto_table[state * self.goto_width + nonterminal]
    }
}

/// In a well-formed table a shift targets a state and stands outside the
/// end-of-input column, and an accept stands inside it.
pub proof fn lemma_action_cell(tables: &ParserTables, state: int, terminal: int)
    requires
        tables.wf(),
        0 <= state < tables.state_count,
        0 <= terminal < tables.action_width,
    ensures
        is_shift_code(tables.action_code(state, terminal)) ==> {
            &&& 0 <= tables.action_code(state, terminal) < tables.state_count
            &&& (tables.action_code(state, terminal) as usize) as int == tables.action_code(
                state,
                terminal,
            )
            &&& terminal != tables.end_terminal
        },
        is_accept_code(tables.action_code(state, terminal)) ==> terminal == tables.end_terminal,
{
    let i = state * tables.action_width + terminal;
    lemma_cell_in_table(state, terminal, tables.state_count as int, tables.action_width as int);
    lemma_fundamental_div_mod_converse(i, tables.action_width as int, state, terminal);
    assert(tables.cell_ok(i, tables.action_table@[i]));
}

} // verus!
