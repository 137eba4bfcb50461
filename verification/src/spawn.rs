//! The command that a plugin asks to run.
use vstd::prelude::*;

use crate::text::{chars_of, lines, lines_of, string_from_chars};

verus! {

/// Why a plugin's command cannot be run.
#[derive(Debug, Clone, Copy, PartialEq, Eq, Structural)]
pub enum SpawnError {
    /// Nothing is left to run once empty lines and field codes are dropped.
    UnparsableCommand,
}

/// A program and its arguments.
#[derive(Debug, Clone)]
pub struct SpawnCommand {
    pub program: String,
    pub args: Vec<String>,
}

/// The lines of a command that are kept: those that are not empty and do
/// not start with `%`.
pub open spec fn kept_lines(ls: Seq<Seq<char>>) -> Seq<Seq<char>>
    decreases ls.len(),
{
    if ls.len() == 0 {
        ls
    } else {
        let prev = kept_lines(ls.drop_last());
        if ls.last().len() > 0 && ls.last()[0] != '%' {
            prev.push(ls.last())
        } else {
            prev
        }
    }
}

/// The program (first kept line) and its arguments (the other kept lines)
/// of a command that a plugin gives, one part a line.
pub open spec fn spawn_command_of(exec: Seq<char>) -> Result<(Seq<char>, Seq<Seq<char>>), SpawnError> {
    let kept = kept_lines(lines(exec));
    if kept.len() == 0 {
        Err(SpawnError::UnparsableCommand)
    } else {
        Ok((kept[0], kept.drop_first()))
    }
}

pub fn parse_spawn_command(exec: &str) -> (r: Result<SpawnCommand, SpawnError>)
    ensures
        match r {
            Ok(c) => spawn_command_of(exec@) == Ok::<(Seq<char>, Seq<Seq<char>>), SpawnError>(
                (c.program@, c.args.deep_view()),
            ),
            Err(e) => spawn_command_of(exec@) == Err::<(Seq<char>, Seq<Seq<char>>), SpawnError>(e),
        },
{
    let ls = lines_of(&chars_of(exec));
    let ghost lv = ls.deep_view();
    let mut kept: Vec<String> = Vec::new();
    let mut i: usize = 0;
    assert(lv.take(0) =~= Seq::<Seq<char>>::empty());
    while i < ls.len()
        invariant
            i <= ls.len(),
            lv == ls.deep_view(),
            kept.deep_view() == kept_lines(lv.take(i as int)),
        decreases ls.len() - i,
    {
        assert(lv.take(i + 1).drop_last() =~= lv.take(i as int));
        assert(ls[i as int]@ == lv[i as int]);
        if ls[i].len() > 0 && ls[i][0] != '%' {
            let ghost prev = kept.deep_view();
            kept.push(string_from_chars(&ls[i]));
            assert(kept.deep_view() =~= prev.push(lv[i as int]));
        }
        i = i + 1;
    }
    assert(lv.take(ls.len() as int) =~= lv);
    if kept.len() == 0 {
        return Err(SpawnError::UnparsableCommand);
    }
    let ghost kv = kept.deep_view();
    let program = kept.remove(0);
    assert(kept.deep_view() =~= kv.drop_first());
    Ok(SpawnCommand { program, args: kept })
}

} // verus!
