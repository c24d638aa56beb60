use lr_automaton::action::{Action, ACCEPT, ERROR};
use lr_automaton::parser::{ParseError, Parser, Reduce};
use lr_automaton::tables::ParserTables;

const NUM: usize = 0;
const END: usize = 1;
const ERR: usize = 2;
const PLUS: usize = 3;

fn reduce_code(prod: i64) -> i64 {
    -prod - 1
}

/// Builds string nodes: production 0 is `S -> x` and wraps its one child,
/// production 1 is `S -> error` and takes no child.
struct Builder;

impl Reduce<String> for Builder {
    fn reduce(&self, prod_index: usize, nodes: &mut Vec<String>) -> usize {
        if prod_index == 0 {
            let child = nodes.pop().unwrap();
            nodes.push(format!("S({})", child));
        } else {
            nodes.push("S(error)".to_string());
        }
        0
    }
}

/// `S -> NUM`: state 0 shifts NUM to state 1, state 1 reduces on end of
/// input, the goto of S from state 0 is state 2, which accepts.
fn minimal_tables() -> ParserTables {
    ParserTables {
        action_table: vec![
            1, ERROR, ERROR, ERROR,
            ERROR, reduce_code(0), ERROR, ERROR,
            ERROR, ACCEPT, ERROR, ERROR,
        ],
        action_width: 4,
        goto_table: vec![2, 0, 0],
        goto_width: 1,
        state_count: 3,
        end_terminal: END,
        error_terminal: ERR,
    }
}

/// `S -> NUM | PLUS | error`: state 0 also shifts the error marker to
/// state 3, where NUM and PLUS shift and end of input reduces `S -> error`.
fn recovering_tables() -> ParserTables {
    ParserTables {
        action_table: vec![
            1, ERROR, 3, ERROR,
            ERROR, reduce_code(0), ERROR, ERROR,
            ERROR, ACCEPT, ERROR, ERROR,
            1, reduce_code(1), ERROR, 1,
        ],
        action_width: 4,
        goto_table: vec![2, 0, 0, 2],
        goto_width: 1,
        state_count: 4,
        end_terminal: END,
        error_terminal: ERR,
    }
}

#[test]
fn action_codes_classify() {
    assert_eq!(ACCEPT, i64::MIN);
    assert_eq!(ERROR, i64::MIN + 1);
    let shift = Action(7);
    assert!(shift.is_shift() && !shift.is_reduce() && !shift.is_accept() && !shift.is_error());
    assert_eq!(shift.shift_state(), 7);
    assert!(Action(0).is_shift());
    assert_eq!(Action(0).shift_state(), 0);
    let reduce = Action(-1);
    assert!(reduce.is_reduce() && !reduce.is_shift());
    assert_eq!(reduce.reduce_prod_index(), 0);
    assert_eq!(Action(-5).reduce_prod_index(), 4);
    assert!(Action(ERROR + 1).is_reduce());
    assert_eq!(Action(ERROR + 1).reduce_prod_index(), (i64::MAX - 2) as usize);
    assert!(Action(ACCEPT).is_accept() && !Action(ACCEPT).is_reduce());
    assert!(Action(ERROR).is_error() && !Action(ERROR).is_reduce());
}

#[test]
fn error_messages() {
    assert_eq!(ParseError::SyntaxError.message(), "syntax error, lol");
    assert_eq!(ParseError::UnexpectedEnd.message(), "unexpected end of input");
}

#[test]
fn check_accepts_valid_tables() {
    assert!(minimal_tables().check());
    assert!(recovering_tables().check());
}

#[test]
fn check_rejects_bad_dimensions() {
    let mut t = minimal_tables();
    t.action_table.pop();
    assert!(!t.check());
    let mut t = minimal_tables();
    t.goto_table.push(0);
    assert!(!t.check());
    let mut t = minimal_tables();
    t.state_count = usize::MAX;
    assert!(!t.check());
}

#[test]
fn check_rejects_bad_terminals() {
    let mut t = minimal_tables();
    t.error_terminal = END;
    assert!(!t.check());
    let mut t = minimal_tables();
    t.end_terminal = 4;
    assert!(!t.check());
}

#[test]
fn check_rejects_out_of_range_targets() {
    let mut t = minimal_tables();
    t.action_table[0] = 3;
    assert!(!t.check());
    let mut t = minimal_tables();
    t.goto_table[0] = 3;
    assert!(!t.check());
}

#[test]
fn check_rejects_accept_outside_end_column() {
    let mut t = minimal_tables();
    t.action_table[0] = ACCEPT;
    assert!(!t.check());
}

#[test]
fn check_rejects_shift_on_end_of_input() {
    let mut t = minimal_tables();
    t.action_table[END] = 2;
    assert!(!t.check());
}

#[test]
fn table_lookups() {
    let t = minimal_tables();
    assert_eq!(t.action(0, NUM).0, 1);
    assert_eq!(t.action(1, END).0, -1);
    assert_eq!(t.action(2, END).0, ACCEPT);
    assert_eq!(t.goto(0, 0), 2);
}

#[test]
fn one_number_parses_to_one_root() {
    let tables = minimal_tables();
    let mut p = Parser::new(&tables, Builder, 0);
    assert_eq!(p.write_token(NUM, "7".to_string()), Ok(()));
    assert_eq!(p.close(), Ok("S(7)".to_string()));
}

#[test]
fn empty_input_is_unexpected_end() {
    let tables = minimal_tables();
    let mut p = Parser::new(&tables, Builder, 0);
    assert_eq!(p.close(), Err(ParseError::UnexpectedEnd));
}

#[test]
fn unexpected_terminal_is_syntax_error() {
    let tables = minimal_tables();
    let mut p = Parser::new(&tables, Builder, 0);
    assert_eq!(p.write_token(PLUS, "+".to_string()), Err(ParseError::SyntaxError));
}

#[test]
fn second_number_is_syntax_error() {
    let tables = minimal_tables();
    let mut p = Parser::new(&tables, Builder, 0);
    assert_eq!(p.write_token(NUM, "1".to_string()), Ok(()));
    assert_eq!(p.write_token(NUM, "2".to_string()), Err(ParseError::SyntaxError));
}

#[test]
fn queries_report_current_action_only() {
    let tables = minimal_tables();
    let mut p = Parser::new(&tables, Builder, 0);
    assert!(p.can_accept_terminal(NUM));
    assert!(!p.can_accept_terminal(PLUS));
    assert!(!p.can_close());
    assert_eq!(p.write_token(NUM, "1".to_string()), Ok(()));
    assert!(p.can_close());
    assert!(!p.can_accept_terminal(NUM));
}

#[test]
fn recovery_retries_the_failing_terminal() {
    let tables = recovering_tables();
    let mut p = Parser::new(&tables, Builder, 0);
    assert!(!p.can_accept_terminal(PLUS));
    assert_eq!(p.write_token(PLUS, "+".to_string()), Ok(()));
    assert!(p.can_close());
    assert_eq!(p.close(), Ok("S(+)".to_string()));
}

#[test]
fn can_close_under_reports_a_recoverable_end() {
    let tables = recovering_tables();
    let mut p = Parser::new(&tables, Builder, 0);
    // Allowed: end of input is an error in the entry state, yet recovery
    // through `S -> error` lets the parse close.
    assert!(!p.can_close());
    assert_eq!(p.close(), Ok("S(error)".to_string()));
}

#[test]
fn failed_recovery_is_not_repeated() {
    let tables = recovering_tables();
    let mut p = Parser::new(&tables, Builder, 0);
    assert_eq!(p.write_token(NUM, "1".to_string()), Ok(()));
    assert_eq!(p.write_token(PLUS, "+".to_string()), Err(ParseError::SyntaxError));
}

#[test]
fn after_close_a_new_parser_starts_over() {
    let tables = recovering_tables();
    let mut first = Parser::new(&tables, Builder, 0);
    assert_eq!(first.write_token(NUM, "1".to_string()), Ok(()));
    assert_eq!(first.close(), Ok("S(1)".to_string()));
    let mut second = Parser::new(&tables, Builder, 0);
    assert_eq!(second.write_token(NUM, "2".to_string()), Ok(()));
    assert_eq!(second.close(), Ok("S(2)".to_string()));
}

#[test]
fn shift_grows_both_stacks_by_one() {
    let tables = minimal_tables();
    let mut p = Parser::new(&tables, Builder, 0);
    assert_eq!(p.stack_depths(), (1, 0));
    assert_eq!(p.state(), 0);
    assert_eq!(p.write_token(NUM, "1".to_string()), Ok(()));
    assert_eq!(p.stack_depths(), (2, 1));
    assert_eq!(p.state(), 1);
}

#[test]
fn reduction_then_accept_drains_the_stacks() {
    let tables = minimal_tables();
    let mut p = Parser::new(&tables, Builder, 0);
    assert_eq!(p.write_token(NUM, "1".to_string()), Ok(()));
    assert_eq!(p.close(), Ok("S(1)".to_string()));
    assert_eq!(p.stack_depths(), (1, 0));
    assert_eq!(p.state(), 0);
}

#[test]
fn zero_arity_reduction_grows_node_stack() {
    let tables = recovering_tables();
    let mut p = Parser::new(&tables, Builder, 0);
    assert_eq!(p.close(), Ok("S(error)".to_string()));
    // Recovery replaced the entry state in place; the reduction of
    // `S -> error` pushed one node and the goto one state, which accept popped.
    assert_eq!(p.stack_depths(), (1, 0));
    assert_eq!(p.state(), 3);
}

#[test]
fn recovery_replaces_top_state_without_a_node() {
    let mut tables = recovering_tables();
    // State 3 no longer shifts PLUS, so the retry fails after the recovery.
    tables.action_table[3 * 4 + PLUS] = ERROR;
    let mut p = Parser::new(&tables, Builder, 0);
    assert_eq!(p.write_token(PLUS, "+".to_string()), Err(ParseError::SyntaxError));
    assert_eq!(p.stack_depths(), (1, 0));
    assert_eq!(p.state(), 3);
}

#[test]
fn recovery_then_shift_keeps_stacks_in_step() {
    let tables = recovering_tables();
    let mut p = Parser::new(&tables, Builder, 0);
    assert_eq!(p.write_token(PLUS, "+".to_string()), Ok(()));
    assert_eq!(p.stack_depths(), (2, 1));
    assert_eq!(p.state(), 1);
}

#[test]
fn same_state_and_terminal_resolve_alike() {
    let tables = recovering_tables();
    let mut a = Parser::new(&tables, Builder, 0);
    let mut b = Parser::new(&tables, Builder, 0);
    assert_eq!(a.write_token(NUM, "1".to_string()), Ok(()));
    assert_eq!(b.write_token(PLUS, "+".to_string()), Ok(()));
    assert_eq!(a.state(), b.state());
    assert_eq!(a.close(), Ok("S(1)".to_string()));
    assert_eq!(b.close(), Ok("S(+)".to_string()));
    assert_eq!(a.stack_depths(), b.stack_depths());
}
