//! The automaton: two parallel stacks driven by the tables, one terminal at a time.

use vstd::prelude::*;

use crate::action::{
    is_accept_code, is_error_code, is_reduce_code, is_shift_code, reduce_prod_of, Action, ERROR,
};
use crate::tables::{lemma_action_cell, ParserTables};

verus! {

/// The most reductions one resolution runs, and the most recoveries one
/// call makes, so that every call ends on any table.
pub const STEP_LIMIT: u64 = 0xffff_ffff_ffff_ffff;

/// The two ways a parse can fail.
#[derive(Clone, Copy, Debug, PartialEq, Eq, Structural)]
pub enum ParseError {
    SyntaxError,
    UnexpectedEnd,
}

impl ParseError {
    pub open spec fn message_spec(&self) -> Seq<char> {
        match self {
            ParseError::SyntaxError => "syntax error, lol"@,
            ParseError::UnexpectedEnd => "unexpected end of input"@,
        }
    }

    /// A fixed human-readable message for each kind.
    pub fn message(&self) -> (r: String)
        ensures
            r@ == self.message_spec(),
    {
        match self {
            ParseError::SyntaxError => "syntax error, lol".to_owned(),
            ParseError::UnexpectedEnd => "unexpected end of input".to_owned(),
        }
    }
}

/// The failure reported for `terminal` once recovery has failed.
pub open spec fn error_for(tables: ParserTables, terminal: int) -> ParseError {
    if terminal == tables.end_terminal {
        ParseError::UnexpectedEnd
    } else {
        ParseError::SyntaxError
    }
}

/// `after` is `before` with zero or more nodes popped and then one pushed.
pub open spec fn pops_then_pushes_one<N>(before: Seq<N>, after: Seq<N>) -> bool {
    &&& 1 <= after.len() <= before.len() + 1
    &&& after.drop_last() == before.take(after.len() - 1)
}

/// The grammar's semantic actions: builds the node of each reduction.
pub trait Reduce<N> {
    /// The node stack that reducing production `prod_index` leaves, and the
    /// nonterminal it produces.
    closed spec fn step(&self, prod_index: nat, nodes: Seq<N>) -> (Seq<N>, nat) {
        (nodes, 0)
    }

    /// Every nonterminal that a reduction returns is below this bound.
    closed spec fn nonterminal_count(&self) -> nat {
        0
    }

    /// Pops the children of production `prod_index` off `nodes`, pushes the
    /// one node built from them, and returns the nonterminal it stands for.
    fn reduce(&self, prod_index: usize, nodes: &mut Vec<N>) -> (nonterminal: usize)
        ensures
            pops_then_pushes_one(old(nodes)@, final(nodes)@),
            (final(nodes)@, nonterminal as nat) == self.step(prod_index as nat, old(nodes)@),
            nonterminal < self.nonterminal_count(),
    ;
}

/// The action that the tables give for `terminal` on top of `states`.
pub open spec fn next_action(tables: ParserTables, states: Seq<usize>, terminal: int) -> i64 {
    tables.action_code(states.last() as int, terminal)
}

/// The state stack after a reduction that left `kept` nodes and produced
/// `nonterminal`: cut to `kept` states, then the goto target pushed.
pub open spec fn after_goto(
    tables: ParserTables,
    states: Seq<usize>,
    kept: int,
    nonterminal: int,
) -> Seq<usize> {
    let below = states.take(kept);
    below.push(tables.goto_state(below.last() as int, nonterminal))
}

/// Reduce-resolution for `terminal`: while the action calls for a
/// reduction, reduce and take the goto, at most `fuel` times. Yields the
/// two stacks and the action code that ended it (error where fuel ran out).
pub open spec fn resolve<N, R: Reduce<N>>(
    tables: ParserTables,
    reducer: R,
    states: Seq<usize>,
    nodes: Seq<N>,
    terminal: int,
    fuel: nat,
) -> (Seq<usize>, Seq<N>, i64)
    decreases fuel,
{
    let code = next_action(tables, states, terminal);
    if !is_reduce_code(code) {
        (states, nodes, code)
    } else if fuel == 0 {
        (states, nodes, ERROR)
    } else {
        let reduced = reducer.step((reduce_prod_of(code) as usize) as nat, nodes);
        resolve(
            tables,
            reducer,
            after_goto(tables, states, reduced.0.len() as int, reduced.1 as int),
            reduced.0,
            terminal,
            (fuel - 1) as nat,
        )
    }
}

/// Reduce-resolution with the full step budget.
pub open spec fn resolution<N, R: Reduce<N>>(
    tables: ParserTables,
    reducer: R,
    states: Seq<usize>,
    nodes: Seq<N>,
    terminal: int,
) -> (Seq<usize>, Seq<N>, i64) {
    resolve(tables, reducer, states, nodes, terminal, STEP_LIMIT as nat)
}

/// One recovery: resolve the error marker; on a shift, the top state
/// becomes its target and no node is pushed. Yields the two stacks and
/// whether it succeeded.
pub open spec fn recover<N, R: Reduce<N>>(
    tables: ParserTables,
    reducer: R,
    states: Seq<usize>,
    nodes: Seq<N>,
) -> (Seq<usize>, Seq<N>, bool) {
    let res = resolution(tables, reducer, states, nodes, tables.error_terminal as int);
    if is_shift_code(res.2) {
        (res.0.update(res.0.len() - 1, res.2 as usize), res.1, true)
    } else {
        (res.0, res.1, false)
    }
}

/// Feeding `token` of class `terminal`: resolve; on a shift push the token
/// and the target; otherwise recover and, on success, start again (at most
/// `fuel` more times). Yields the two stacks and the result.
pub open spec fn consume<N, R: Reduce<N>>(
    tables: ParserTables,
    reducer: R,
    states: Seq<usize>,
    nodes: Seq<N>,
    terminal: int,
    token: N,
    fuel: nat,
) -> (Seq<usize>, Seq<N>, Result<(), ParseError>)
    decreases fuel,
{
    let res = resolution(tables, reducer, states, nodes, terminal);
    if is_shift_code(res.2) {
        (res.0.push(res.2 as usize), res.1.push(token), Ok(()))
    } else if fuel == 0 {
        (res.0, res.1, Err(error_for(tables, terminal)))
    } else {
        let rec = recover(tables, reducer, res.0, res.1);
        if rec.2 {
            consume(tables, reducer, rec.0, rec.1, terminal, token, (fuel - 1) as nat)
        } else {
            (rec.0, rec.1, Err(error_for(tables, terminal)))
        }
    }
}

/// Ending the input: resolve end of input; on accept with one node, pop it
/// and its state and return it; on accept with any other number of nodes,
/// fail; otherwise recover and, on success, start again (at most `fuel`
/// more times). Yields the two stacks and the result.
pub open spec fn finish<N, R: Reduce<N>>(
    tables: ParserTables,
    reducer: R,
    states: Seq<usize>,
    nodes: Seq<N>,
    fuel: nat,
) -> (Seq<usize>, Seq<N>, Result<N, ParseError>)
    decreases fuel,
{
    let res = resolution(tables, reducer, states, nodes, tables.end_terminal as int);
    if is_accept_code(res.2) {
        if res.1.len() == 1 {
            (res.0.drop_last(), res.1.drop_last(), Ok(res.1[0]))
        } else {
            (res.0, res.1, Err(ParseError::UnexpectedEnd))
        }
    } else if fuel == 0 {
        (res.0, res.1, Err(ParseError::UnexpectedEnd))
    } else {
        let rec = recover(tables, reducer, res.0, res.1);
        if rec.2 {
            finish(tables, reducer, rec.0, rec.1, (fuel - 1) as nat)
        } else {
            (rec.0, rec.1, Err(ParseError::UnexpectedEnd))
        }
    }
}

/// Each step of reduce-resolution is decided by the top state and the
/// terminal alone: two state stacks with the same top call for the same
/// action for the same terminal.
pub proof fn lemma_step_decided_by_top_and_terminal(
    tables: ParserTables,
    a: Seq<usize>,
    b: Seq<usize>,
    terminal: int,
)
    requires
        a.len() >= 1,
        b.len() >= 1,
        a.last() == b.last(),
    ensures
        next_action(tables, a, terminal) == next_action(tables, b, terminal),
{
}

/// Reduce-resolution is a function of the tables, the reducer, the two
/// stacks and the terminal: whatever two parsers resolved before, from
/// equal stacks they resolve a terminal alike, with the same reductions.
pub proof fn lemma_resolution_depends_on_stacks_and_terminal<N, R: Reduce<N>>(
    tables: ParserTables,
    reducer: R,
    states1: Seq<usize>,
    nodes1: Seq<N>,
    states2: Seq<usize>,
    nodes2: Seq<N>,
    terminal: int,
    fuel: nat,
)
    requires
        states1 == states2,
        nodes1 == nodes2,
    ensures
        resolve(tables, reducer, states1, nodes1, terminal, fuel) == resolve(
            tables,
            reducer,
            states2,
            nodes2,
            terminal,
            fuel,
        ),
    decreases fuel,
{
    let code = next_action(tables, states1, terminal);
    if is_reduce_code(code) && fuel > 0 {
        let reduced = reducer.step((reduce_prod_of(code) as usize) as nat, nodes1);
        lemma_resolution_depends_on_stacks_and_terminal(
            tables,
            reducer,
            after_goto(tables, states1, reduced.0.len() as int, reduced.1 as int),
            reduced.0,
            after_goto(tables, states2, reduced.0.len() as int, reduced.1 as int),
            reduced.0,
            terminal,
            (fuel - 1) as nat,
        );
    }
}

/// A recovery where the error marker shifts at once pushes no node: the node
/// stack stays as it was and only the top state changes, to the target.
pub proof fn lemma_recovery_keeps_nodes<N, R: Reduce<N>>(
    tables: ParserTables,
    reducer: R,
    states: Seq<usize>,
    nodes: Seq<N>,
)
    requires
        states.len() >= 1,
        is_shift_code(next_action(tables, states, tables.error_terminal as int)),
    ensures
        recover(tables, reducer, states, nodes) == (
            states.update(
                states.len() - 1,
                next_action(tables, states, tables.error_terminal as int) as usize,
            ),
            nodes,
            true,
        ),
{
}

/// After a recovery the failing terminal is tried again against the new
/// top state: where the marker shifts at once and the terminal then shifts,
/// the token is pushed above the resynchronized state.
pub proof fn lemma_recovery_then_shift<N, R: Reduce<N>>(
    tables: ParserTables,
    reducer: R,
    states: Seq<usize>,
    nodes: Seq<N>,
    terminal: int,
    token: N,
)
    requires
        states.len() >= 1,
        is_error_code(next_action(tables, states, terminal)),
        is_shift_code(next_action(tables, states, tables.error_terminal as int)),
        is_shift_code(
            tables.action_code(
                (next_action(tables, states, tables.error_terminal as int) as usize) as int,
                terminal,
            ),
        ),
    ensures
        ({
            let target = next_action(tables, states, tables.error_terminal as int) as usize;
            let resynced = states.update(states.len() - 1, target);
            consume(tables, reducer, states, nodes, terminal, token, STEP_LIMIT as nat) == (
                resynced.push(tables.action_code(target as int, terminal) as usize),
                nodes.push(token),
                Ok::<(), ParseError>(()),
            )
        }),
{
    reveal_with_fuel(consume, 2);
    let target = next_action(tables, states, tables.error_terminal as int) as usize;
    let resynced = states.update(states.len() - 1, target);
    assert(resynced.last() == target);
}

/// After a recovery whose retry meets an error again, and the marker no
/// longer shifts, the call fails and no node is pushed.
pub proof fn lemma_recovery_then_failed_retry<N, R: Reduce<N>>(
    tables: ParserTables,
    reducer: R,
    states: Seq<usize>,
    nodes: Seq<N>,
    terminal: int,
    token: N,
)
    requires
        states.len() >= 1,
        is_error_code(next_action(tables, states, terminal)),
        is_shift_code(next_action(tables, states, tables.error_terminal as int)),
        is_error_code(
            tables.action_code(
                (next_action(tables, states, tables.error_terminal as int) as usize) as int,
                terminal,
            ),
        ),
        is_error_code(
            tables.action_code(
                (next_action(tables, states, tables.error_terminal as int) as usize) as int,
                tables.error_terminal as int,
            ),
        ),
    ensures
        ({
            let target = next_action(tables, states, tables.error_terminal as int) as usize;
            consume(tables, reducer, states, nodes, terminal, token, STEP_LIMIT as nat) == (
                states.update(states.len() - 1, target),
                nodes,
                Err::<(), ParseError>(error_for(tables, terminal)),
            )
        }),
{
    reveal_with_fuel(consume, 2);
    let target = next_action(tables, states, tables.error_terminal as int) as usize;
    let resynced = states.update(states.len() - 1, target);
    assert(resynced.last() == target);
}

/// Where end of input first calls for one reduction, whose goto state
/// accepts with the one node it left, the input closes with that node as
/// the root, and both stacks are cut below it.
pub proof fn lemma_reduce_then_accept<N, R: Reduce<N>>(
    tables: ParserTables,
    reducer: R,
    states: Seq<usize>,
    nodes: Seq<N>,
)
    requires
        states.len() >= 1,
        is_reduce_code(next_action(tables, states, tables.end_terminal as int)),
        ({
            let code = next_action(tables, states, tables.end_terminal as int);
            let reduced = reducer.step((reduce_prod_of(code) as usize) as nat, nodes);
            let goto_states = after_goto(tables, states, reduced.0.len() as int, reduced.1 as int);
            &&& reduced.0.len() == 1
            &&& is_accept_code(next_action(tables, goto_states, tables.end_terminal as int))
        }),
    ensures
        ({
            let code = next_action(tables, states, tables.end_terminal as int);
            let reduced = reducer.step((reduce_prod_of(code) as usize) as nat, nodes);
            let goto_states = after_goto(tables, states, reduced.0.len() as int, reduced.1 as int);
            finish(tables, reducer, states, nodes, STEP_LIMIT as nat) == (
                goto_states.drop_last(),
                reduced.0.drop_last(),
                Ok::<N, ParseError>(reduced.0[0]),
            )
        }),
{
    reveal_with_fuel(resolve, 2);
}

/// A parser instance: a stack of states and, one shorter, a stack of nodes.
pub struct Parser<'a, N, R: Reduce<N>> {
    tables: &'a ParserTables,
    state_stack: Vec<usize>,
    node_stack: Vec<N>,
    reduce: R,
}

impl<'a, N, R: Reduce<N>> Parser<'a, N, R> {
    pub closed spec fn table_view(&self) -> ParserTables {
        *self.tables
    }

    pub closed spec fn reducer(&self) -> R {
        self.reduce
    }

    pub closed spec fn states(&self) -> Seq<usize> {
        self.state_stack@
    }

    pub closed spec fn nodes(&self) -> Seq<N> {
        self.node_stack@
    }

    /// Valid tables, a reducer whose nonterminals the goto table covers, one
    /// more state than nodes, and every state in range.
    pub open spec fn wf(&self) -> bool {
        &&& self.table_view().wf()
        &&& self.reducer().nonterminal_count() <= self.table_view().goto_width
        &&& self.states().len() == self.nodes().len() + 1
        &&& forall|i: int|
            0 <= i < self.states().len() ==> #[trigger] self.states()[i]
                < self.table_view().state_count
    }

    /// Tables and reducer are the same in `self` and `other`.
    pub open spec fn same_setup(&self, other: &Self) -> bool {
        self.table_view() == other.table_view() && self.reducer() == other.reducer()
    }

    /// The current action for `terminal`, before any reduction.
    pub open spec fn pending(&self, terminal: int) -> i64 {
        next_action(self.table_view(), self.states(), terminal)
    }

    /// Starts a parse in `entry_state`.
    pub fn new(tables: &'a ParserTables, reduce: R, entry_state: usize) -> (p: Self)
        requires
            tables.wf(),
            entry_state < tables.state_count,
            reduce.nonterminal_count() <= tables.goto_width,
        ensures
            p.wf(),
            p.table_view() == *tables,
            p.reducer() == reduce,
            p.states() == seq![entry_state],
            p.nodes() == Seq::<N>::empty(),
    {
        let mut state_stack: Vec<usize> = Vec::new();
        state_stack.push(entry_state);
        Parser { tables, state_stack, node_stack: Vec::new(), reduce }
    }

    /// The state on top of the state stack.
    pub fn state(&self) -> (r: usize)
        requires
            self.wf(),
        ensures
            r == self.states().last(),
            r < self.table_view().state_count,
    {
        self.state_stack[self.state_stack.len() - 1]
    }

    /// The depths of the state stack and of the node stack.
    pub fn stack_depths(&self) -> (r: (usize, usize))
        ensures
            r.0 == self.states().len(),
            r.1 == self.nodes().len(),
    {
        (self.state_stack.len(), self.node_stack.len())
    }

    fn action(&self, terminal: usize) -> (r: Action)
        requires
            self.wf(),
            terminal < self.table_view().action_width,
        ensures
            r.0 == self.pending(terminal as int),
    {
        self.tables.action(self.state(), terminal)
    }

    /// One reduction of production `prod_index`: the callback pops `k` nodes
    /// and pushes one, the state stack is cut to match, and the goto target
    /// of the produced nonterminal is pushed.
    fn reduce_once(&mut self, prod_index: usize)
        requires
            old(self).wf(),
        ensures
            final(self).wf(),
            final(self).same_setup(old(self)),
            pops_then_pushes_one(old(self).nodes(), final(self).nodes()),
            ({
                let reduced = old(self).reducer().step(prod_index as nat, old(self).nodes());
                &&& final(self).nodes() == reduced.0
                &&& reduced.1 < old(self).table_view().goto_width
                &&& final(self).states() == after_goto(
                    old(self).table_view(),
                    old(self).states(),
                    reduced.0.len() as int,
                    reduced.1 as int,
                )
            }),
            final(self).states()[0] == old(self).states()[0],
    {
        let nt = self.reduce.reduce(prod_index, &mut self.node_stack);
        let kept = self.node_stack.len();
        self.state_stack.truncate(kept);
        let exposed = self.state_stack[kept - 1];
        let next = self.tables.goto(exposed, nt);
        self.state_stack.push(next);
    }

    /// Runs every reduction that `terminal` calls for and returns the action
    /// for `terminal` that follows them, never a reduce: the error action
    /// where `STEP_LIMIT` reductions did not end the run.
    fn reduce_all(&mut self, terminal: usize) -> (r: Action)
        requires
            old(self).wf(),
            terminal < old(self).table_view().action_width,
        ensures
            final(self).wf(),
            final(self).same_setup(old(self)),
            (final(self).states(), final(self).nodes(), r.0) == resolution(
                old(self).table_view(),
                old(self).reducer(),
                old(self).states(),
                old(self).nodes(),
                terminal as int,
            ),
            !is_reduce_code(r.0),
            !is_error_code(r.0) ==> r.0 == final(self).pending(terminal as int),
            final(self).states()[0] == old(self).states()[0],
    {
        let mut action = self.action(terminal);
        let mut fuel: u64 = STEP_LIMIT;
        while action.is_reduce() && fuel > 0
            invariant
                self.wf(),
                self.same_setup(old(self)),
                terminal < self.table_view().action_width,
                action.0 == self.pending(terminal as int),
                resolve(
                    self.table_view(),
                    self.reducer(),
                    self.states(),
                    self.nodes(),
                    terminal as int,
                    fuel as nat,
                ) == resolution(
                    old(self).table_view(),
                    old(self).reducer(),
                    old(self).states(),
                    old(self).nodes(),
                    terminal as int,
                ),
                self.states()[0] == old(self).states()[0],
            decreases fuel,
        {
            self.reduce_once(action.reduce_prod_index());
            action = self.action(terminal);
            fuel = fuel - 1;
        }
        if action.is_reduce() {
            Action(ERROR)
        } else {
            action
        }
    }

    /// The shift step of a recovery: the top state becomes `target` in place
    /// and no node is pushed for the error marker.
    fn resync(&mut self, target: usize)
        requires
            old(self).wf(),
            target < old(self).table_view().state_count,
        ensures
            final(self).wf(),
            final(self).same_setup(old(self)),
            final(self).nodes() == old(self).nodes(),
            final(self).states() == old(self).states().update(
                old(self).states().len() - 1,
                target,
            ),
    {
        let last = self.state_stack.len() - 1;
        self.state_stack.set(last, target);
    }

    /// One attempt at recovery after `terminal` met an error: resolve the
    /// error marker, and on a shift move to its target without a node.
    fn try_error_handling(&mut self, terminal: usize) -> (r: Result<(), ParseError>)
        requires
            old(self).wf(),
            terminal < old(self).table_view().action_width,
            terminal != old(self).table_view().error_terminal,
        ensures
            final(self).wf(),
            final(self).same_setup(old(self)),
            ({
                let rec = recover(
                    old(self).table_view(),
                    old(self).reducer(),
                    old(self).states(),
                    old(self).nodes(),
                );
                &&& final(self).states() == rec.0
                &&& final(self).nodes() == rec.1
                &&& r == if rec.2 {
                    Ok::<(), ParseError>(())
                } else {
                    Err(error_for(old(self).table_view(), terminal as int))
                }
            }),
    {
        let marker = self.tables.error_terminal;
        let action = self.reduce_all(marker);
        if action.is_shift() {
            proof {
                let top = self.states().len() - 1;
                assert(self.states()[top] < self.table_view().state_count);
                lemma_action_cell(&self.table_view(), self.states().last() as int, marker as int);
            }
            self.resync(action.shift_state());
            Ok(())
        } else if terminal == self.tables.end_terminal {
            Err(ParseError::UnexpectedEnd)
        } else {
            Err(ParseError::SyntaxError)
        }
    }

    /// Feeds one token of class `terminal`: resolves the reductions it calls
    /// for, then shifts it; on an error, recovers once and tries again.
    /// End of input is not a token: `close` resolves it.
    pub fn write_token(&mut self, terminal: usize, token: N) -> (r: Result<(), ParseError>)
        requires
            old(self).wf(),
            terminal < old(self).table_view().action_width,
            terminal != old(self).table_view().error_terminal,
            terminal != old(self).table_view().end_terminal,
        ensures
            final(self).wf(),
            final(self).same_setup(old(self)),
            (final(self).states(), final(self).nodes(), r) == consume(
                old(self).table_view(),
                old(self).reducer(),
                old(self).states(),
                old(self).nodes(),
                terminal as int,
                token,
                STEP_LIMIT as nat,
            ),
            r is Ok ==> final(self).nodes().last() == token,
            r matches Err(e) ==> e == ParseError::SyntaxError,
    {
        let mut fuel: u64 = STEP_LIMIT;
        loop
            invariant
                self.wf(),
                self.same_setup(old(self)),
                terminal < self.table_view().action_width,
                terminal != self.table_view().error_terminal,
                terminal != self.table_view().end_terminal,
                consume(
                    self.table_view(),
                    self.reducer(),
                    self.states(),
                    self.nodes(),
                    terminal as int,
                    token,
                    fuel as nat,
                ) == consume(
                    old(self).table_view(),
                    old(self).reducer(),
                    old(self).states(),
                    old(self).nodes(),
                    terminal as int,
                    token,
                    STEP_LIMIT as nat,
                ),
            decreases fuel,
        {
            let action = self.reduce_all(terminal);
            if action.is_shift() {
                proof {
                    let top = self.states().len() - 1;
                    assert(self.states()[top] < self.table_view().state_count);
                    lemma_action_cell(
                        &self.table_view(),
                        self.states().last() as int,
                        terminal as int,
                    );
                }
                self.node_stack.push(token);
                self.state_stack.push(action.shift_state());
                return Ok(());
            }
            if fuel == 0 {
                return Err(ParseError::SyntaxError);
            }
            self.try_error_handling(terminal)?;
            fuel = fuel - 1;
        }
    }

    /// Ends the input: resolves the reductions that end of input calls for
    /// and, on accept with one node left, pops it and its state and returns
    /// it as the root; on an error, recovers once and tries again. An accept
    /// with other than one node fails with `UnexpectedEnd`.
    pub fn close(&mut self) -> (r: Result<N, ParseError>)
        requires
            old(self).wf(),
        ensures
            final(self).wf(),
            final(self).same_setup(old(self)),
            (final(self).states(), final(self).nodes(), r) == finish(
                old(self).table_view(),
                old(self).reducer(),
                old(self).states(),
                old(self).nodes(),
                STEP_LIMIT as nat,
            ),
            r is Ok ==> final(self).nodes().len() == 0 && final(self).states().len() == 1,
            r matches Err(e) ==> e == ParseError::UnexpectedEnd,
    {
        let end = self.tables.end_terminal;
        let mut fuel: u64 = STEP_LIMIT;
        loop
            invariant
                self.wf(),
                self.same_setup(old(self)),
                end == self.table_view().end_terminal,
                finish(
                    self.table_view(),
                    self.reducer(),
                    self.states(),
                    self.nodes(),
                    fuel as nat,
                ) == finish(
                    old(self).table_view(),
                    old(self).reducer(),
                    old(self).states(),
                    old(self).nodes(),
                    STEP_LIMIT as nat,
                ),
            decreases fuel,
        {
            let action = self.reduce_all(end);
            if action.is_accept() {
                if self.node_stack.len() == 1 {
                    let root = self.node_stack.pop();
                    self.state_stack.pop();
                    match root {
                        Some(node) => {
                            return Ok(node);
                        },
                        None => {
                            return Err(ParseError::UnexpectedEnd);
                        },
                    }
                } else {
                    return Err(ParseError::UnexpectedEnd);
                }
            }
            if fuel == 0 {
                return Err(ParseError::UnexpectedEnd);
            }
            self.try_error_handling(end)?;
            fuel = fuel - 1;
        }
    }

    /// Whether the current action for `terminal` is not an error. No
    /// reduction is simulated, so a terminal that would be accepted after
    /// reductions or a recovery may be reported as not acceptable.
    pub fn can_accept_terminal(&self, terminal: usize) -> (r: bool)
        requires
            self.wf(),
            terminal < self.table_view().action_width,
        ensures
            r == !is_error_code(self.pending(terminal as int)),
    {
        !self.action(terminal).is_error()
    }

    /// Whether the current action for end of input is not an error; as
    /// approximate as `can_accept_terminal`, and no recovery is tried.
    pub fn can_close(&self) -> (r: bool)
        requires
            self.wf(),
        ensures
            r == !is_error_code(self.pending(self.table_view().end_terminal as int)),
    {
        if self.can_accept_terminal(self.tables.end_terminal) {
            true
        } else {
            false
        }
    }
}

} // verus!
