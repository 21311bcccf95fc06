use vstd::prelude::*;
use crate::commands::RushStream;
use crate::context::Context;
use crate::error::{ErrorKind, ShellError};
use crate::lex::is_white;
use crate::order::str_eq;
use crate::parser::{CommandView, parse, pipeline_model, pipeline_ok, line_kinds};
use crate::runner::{
    CommandType, ExternalCommand, InternalCommand, PipelineRun, Spawn, Stdin, Stdout,
    build_pipeline, is_internal, resolved_as, spawn_plan_of, transports_ok,
};

verus! {

/// How a pipeline is carried out: by the library, stage by stage, when all
/// stages are built-ins; by the host, as a chain of processes, when all are
/// programs.
pub enum Plan {
    Builtins(PipelineRun),
    Programs(Vec<Spawn>),
}

/// What to do with one input line.
pub enum LineAction {
    Exit,
    Blank,
    Run(Plan),
}

/// `s` without its leading white space.
pub open spec fn trim_start(s: Seq<char>) -> Seq<char>
    decreases s.len(),
{
    if s.len() > 0 && is_white(s[0]) {
        trim_start(s.drop_first())
    } else {
        s
    }
}

/// `s` without its trailing white space.
pub open spec fn trim_end(s: Seq<char>) -> Seq<char>
    decreases s.len(),
{
    if s.len() > 0 && is_white(s.last()) {
        trim_end(s.drop_last())
    } else {
        s
    }
}

pub open spec fn trim(s: Seq<char>) -> Seq<char> {
    trim_end(trim_start(s))
}

pub open spec fn exit_word() -> Seq<char> {
    seq!['e', 'x', 'i', 't']
}

pub open spec fn internal_stages(stages: Seq<CommandType>, ics: Seq<InternalCommand>) -> bool {
    &&& ics.len() == stages.len()
    &&& forall|i: int| 0 <= i < ics.len() ==> stages[i] == CommandType::Internal(#[trigger] ics[i])
}

pub open spec fn external_stages(stages: Seq<CommandType>, ecs: Seq<ExternalCommand>) -> bool {
    &&& ecs.len() == stages.len()
    &&& forall|i: int| 0 <= i < ecs.len() ==> stages[i] == CommandType::External(#[trigger] ecs[i])
}

/// The plan carries out exactly these stages, from the current directory.
pub open spec fn plan_of(p: Plan, stages: Seq<CommandType>, cwd: String) -> bool {
    match p {
        Plan::Builtins(run) => internal_stages(stages, run.stages@) && run.pos == 0
            && run.stream is Empty && run.cwd == cwd && !run.done,
        Plan::Programs(sp) => exists|ecs: Seq<ExternalCommand>|
            external_stages(stages, ecs) && spawn_plan_of(ecs, sp@),
    }
}

/// Checks that adjacent stages are of one kind, and plans the pipeline. An
/// empty pipeline is an error, and so is a built-in next to a program: the
/// library does not turn values into bytes or bytes into values.
pub fn plan_pipeline(stages: Vec<CommandType>, cwd: String) -> (r: Result<Plan, ShellError>)
    ensures
        stages@.len() == 0 ==> (r matches Err(e) && e.kind == ErrorKind::Parse),
        stages@.len() > 0 && !transports_ok(stages@) ==> (r matches Err(e) && e.kind
            == ErrorKind::UnsupportedTransport),
        stages@.len() > 0 && transports_ok(stages@) ==> (r matches Ok(p) && plan_of(
            p,
            stages@,
            cwd,
        ) && (p is Builtins <==> is_internal(stages@[0]))),
{
    let n = stages.len();
    if n == 0 {
        return Err(ShellError::from_str(ErrorKind::Parse, "empty pipeline"));
    }
    let mut i: usize = 0;
    while i + 1 < n
        invariant
            n == stages@.len(),
            n > 0,
            i < n,
            forall|k: int| 0 <= k < i ==> is_internal(#[trigger] stages@[k]) == is_internal(
                stages@[k + 1],
            ),
        decreases n - i,
    {
        let a = match &stages[i] {
            CommandType::Internal(_) => true,
            CommandType::External(_) => false,
        };
        let b = match &stages[i + 1] {
            CommandType::Internal(_) => true,
            CommandType::External(_) => false,
        };
        if a != b {
            return Err(
                ShellError::from_str(
                    ErrorKind::UnsupportedTransport,
                    "pipes between built-in commands and programs are not supported",
                ),
            );
        }
        i = i + 1;
    }
    assert(transports_ok(stages@));
    let ghost all = stages@;
    let first_internal = match &stages[0] {
        CommandType::Internal(_) => true,
        CommandType::External(_) => false,
    };
    proof {
        assert forall|k: int| 0 <= k < n implies is_internal(#[trigger] all[k])
            == first_internal by {
            lemma_same_kind(all, k);
        }
    }
    let mut stages = stages;
    if first_internal {
        let mut ics: Vec<InternalCommand> = Vec::new();
        while stages.len() > 0
            invariant
                ics@.len() + stages@.len() == n,
                n == all.len(),
                stages@ == all.skip(ics@.len() as int),
                forall|k: int| 0 <= k < n ==> is_internal(#[trigger] all[k]),
                forall|k: int| 0 <= k < ics@.len() ==> all[k] == CommandType::Internal(#[trigger] ics@[k]),
            decreases stages@.len(),
        {
            let c = stages.remove(0);
            assert(c == all[ics@.len() as int]);
            assert(stages@ =~= all.skip(ics@.len() as int + 1));
            match c {
                CommandType::Internal(ic) => ics.push(ic),
                CommandType::External(_) => {
                    assert(false);
                    return Err(ShellError::from_str(ErrorKind::Parse, "empty pipeline"));
                },
            }
        }
        Ok(Plan::Builtins(PipelineRun::new(ics, cwd)))
    } else {
        let mut ecs: Vec<ExternalCommand> = Vec::new();
        while stages.len() > 0
            invariant
                ecs@.len() + stages@.len() == n,
                n == all.len(),
                stages@ == all.skip(ecs@.len() as int),
                forall|k: int| 0 <= k < n ==> !is_internal(#[trigger] all[k]),
                forall|k: int| 0 <= k < ecs@.len() ==> all[k] == CommandType::External(#[trigger] ecs@[k]),
            decreases stages@.len(),
        {
            let c = stages.remove(0);
            assert(c == all[ecs@.len() as int]);
            assert(stages@ =~= all.skip(ecs@.len() as int + 1));
            match c {
                CommandType::External(ec) => ecs.push(ec),
                CommandType::Internal(_) => {
                    assert(false);
                    return Err(ShellError::from_str(ErrorKind::Parse, "empty pipeline"));
                },
            }
        }
        let ghost ev = ecs@;
        let sp = spawn_plan(ecs);
        assert(external_stages(all, ev));
        Ok(Plan::Programs(sp))
    }
}

proof fn lemma_same_kind(s: Seq<CommandType>, k: int)
    requires
        transports_ok(s),
        0 <= k < s.len(),
    ensures
        is_internal(s[k]) == is_internal(s[0]),
    decreases k,
{
    if k > 0 {
        lemma_same_kind(s, k - 1);
        assert(is_internal(s[k - 1]) == is_internal(s[k]));
    }
}

/// Connects a chain of programs: each reads what the one before wrote.
pub fn spawn_plan(stages: Vec<ExternalCommand>) -> (r: Vec<Spawn>)
    ensures
        spawn_plan_of(stages@, r@),
{
    let ghost all = stages@;
    let n = stages.len();
    let mut stages = stages;
    let mut out: Vec<Spawn> = Vec::new();
    while stages.len() > 0
        invariant
            out@.len() + stages@.len() == n,
            n == all.len(),
            stages@ == all.skip(out@.len() as int),
            forall|i: int|
                0 <= i < out@.len() ==> {
                    &&& (#[trigger] out@[i]).program == all[i].command
                    &&& out@[i].args == all[i].args
                    &&& out@[i].stdin == (if i == 0 {
                        Stdin::Inherit
                    } else {
                        Stdin::PreviousStage
                    })
                    &&& out@[i].stdout == (if i == n - 1 {
                        Stdout::Inherit
                    } else {
                        Stdout::Pipe
                    })
                },
        decreases stages@.len(),
    {
        let k = out.len();
        let c = stages.remove(0);
        assert(c == all[k as int]);
        assert(stages@ =~= all.skip(k + 1));
        let stream = if k == 0 {
            RushStream::Empty
        } else {
            RushStream::External
        };
        let stdout = if k == n - 1 {
            Stdout::Inherit
        } else {
            Stdout::Pipe
        };
        match c.run(stream, stdout) {
            Ok(sp) => out.push(sp),
            Err(_) => {
                assert(false);
            },
        }
    }
    out
}

/// The positions of the first and of the last character of `s` that is not
/// white space, as a half-open range.
fn trimmed_bounds(s: &str) -> (r: (usize, usize))
    ensures
        r.0 <= r.1 <= s@.len(),
        s@.subrange(r.0 as int, r.1 as int) == trim(s@),
{
    let n = s.unicode_len();
    let mut a: usize = 0;
    assert(s@.skip(0) =~= s@);
    while a < n && is_white_at(s, a)
        invariant
            n == s@.len(),
            a <= n,
            trim_start(s@) == trim_start(s@.skip(a as int)),
        decreases n - a,
    {
        assert(s@.skip(a as int).drop_first() =~= s@.skip(a + 1));
        a = a + 1;
    }
    assert(trim_start(s@.skip(a as int)) == s@.skip(a as int)) by {
        if a < n {
            assert(s@.skip(a as int)[0] == s@[a as int]);
        }
    }
    let mut b: usize = n;
    let ghost front = s@.skip(a as int);
    assert(front =~= s@.subrange(a as int, b as int));
    while b > a && is_white_at(s, b - 1)
        invariant
            n == s@.len(),
            a <= b <= n,
            front == s@.skip(a as int),
            trim_end(front) == trim_end(s@.subrange(a as int, b as int)),
        decreases b,
    {
        assert(s@.subrange(a as int, b as int).drop_last() =~= s@.subrange(a as int, b - 1));
        assert(s@.subrange(a as int, b as int).last() == s@[b - 1]);
        b = b - 1;
    }
    assert(trim_end(s@.subrange(a as int, b as int)) == s@.subrange(a as int, b as int)) by {
        if b > a {
            assert(s@.subrange(a as int, b as int).last() == s@[b - 1]);
        }
    }
    (a, b)
}

fn is_white_at(s: &str, i: usize) -> (r: bool)
    requires
        i < s@.len(),
    ensures
        r == is_white(s@[i as int]),
{
    let c = s.get_char(i);
    ('\u{9}' <= c && c <= '\u{d}') || c == ' ' || c == '\u{85}' || c == '\u{a0}' || c
        == '\u{1680}' || ('\u{2000}' <= c && c <= '\u{200a}') || c == '\u{2028}' || c
        == '\u{2029}' || c == '\u{202f}' || c == '\u{205f}' || c == '\u{3000}'
}

/// The kind of stage that a parsed command becomes.
pub open spec fn names_builtin(ctx: Context, c: CommandView) -> bool {
    ctx.builtin_named(c.name) is Some
}

/// Adjacent commands of the line resolve to stages of one kind.
pub open spec fn kinds_agree(ctx: Context, cmds: Seq<CommandView>) -> bool {
    forall|i: int|
        0 <= i < cmds.len() - 1 ==> names_builtin(ctx, #[trigger] cmds[i]) == names_builtin(
            ctx,
            cmds[i + 1],
        )
}

/// The plan carries out the stages that the commands resolve to.
pub open spec fn planned_from(p: Plan, cmds: Seq<CommandView>, ctx: Context, cwd: String) -> bool {
    exists|stages: Seq<CommandType>|
        #![trigger plan_of(p, stages, cwd)]
        plan_of(p, stages, cwd) && stages.len() == cmds.len() && (forall|i: int|
            0 <= i < stages.len() ==> resolved_as(#[trigger] stages[i], cmds[i], ctx))
}

/// Decides what one input line asks for: `exit` (white space around it
/// ignored) ends the session, a blank line does nothing, and any other line
/// is parsed, resolved against the registry and planned.
pub fn process_line(ctx: &Context, line: &str, cwd: String) -> (r: Result<LineAction, ShellError>)
    ensures
        trim(line@) == exit_word() ==> r matches Ok(LineAction::Exit),
        trim(line@).len() == 0 ==> r matches Ok(LineAction::Blank),
        trim(line@) != exit_word() && trim(line@).len() > 0 ==> {
            let cmds = pipeline_model(line_kinds(line@));
            &&& !pipeline_ok(line_kinds(line@)) ==> (r matches Err(e) && e.kind == ErrorKind::Parse)
            &&& pipeline_ok(line_kinds(line@)) && !kinds_agree(*ctx, cmds) ==> (r matches Err(e)
                && e.kind == ErrorKind::UnsupportedTransport)
            &&& pipeline_ok(line_kinds(line@)) && kinds_agree(*ctx, cmds) ==> (r matches Ok(
                LineAction::Run(p),
            ) && planned_from(p, cmds, *ctx, cwd))
        },
{
    let (a, b) = trimmed_bounds(line);
    let t = line.substring_char(a, b);
    proof {
        reveal_strlit("exit");
    }
    if str_eq(t, "exit") {
        assert("exit"@ =~= exit_word());
        return Ok(LineAction::Exit);
    }
    if a == b {
        assert(trim(line@).len() == 0);
        assert(exit_word().len() == 4);
        return Ok(LineAction::Blank);
    }
    assert("exit"@ =~= exit_word());
    let parsed = parse(line)?;
    let ghost cmds = parsed@;
    proof {
        crate::parser::lemma_segments_nonempty(line_kinds(line@));
    }
    let stages = build_pipeline(ctx, parsed);
    let ghost sv = stages@;
    assert(transports_ok(sv) <==> kinds_agree(*ctx, cmds)) by {
        assert forall|i: int| 0 <= i < sv.len() implies is_internal(#[trigger] sv[i])
            == names_builtin(*ctx, cmds[i]) by {
            assert(resolved_as(sv[i], cmds[i], *ctx));
        }
        if transports_ok(sv) {
            assert forall|i: int| 0 <= i < cmds.len() - 1 implies names_builtin(
                *ctx,
                #[trigger] cmds[i],
            ) == names_builtin(*ctx, cmds[i + 1]) by {
                assert(is_internal(sv[i]) == is_internal(sv[i + 1]));
            }
        }
        if kinds_agree(*ctx, cmds) {
            assert forall|i: int| 0 <= i < sv.len() - 1 implies is_internal(#[trigger] sv[i])
                == is_internal(sv[i + 1]) by {
                assert(names_builtin(*ctx, cmds[i]) == names_builtin(*ctx, cmds[i + 1]));
            }
        }
    }
    let plan = plan_pipeline(stages, cwd)?;
    Ok(LineAction::Run(plan))
}

} // verus!
