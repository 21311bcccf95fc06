use vstd::prelude::*;
use crate::commands::{
    Builtin, Cd, EntryRecord, Limit, Ls, ProcessRecord, Ps, Rev, RushStream, SortBy, cd_target,
    entry_records, limit_result, ls_target, process_records, rev_result, sortby_result,
    stage_error,
};
use crate::context::Context;
use crate::error::{ErrorKind, ShellError};
use crate::numtext::i64_text;
use crate::parser::{CommandView, Expr, ParsedCommand, ParsedPipeline, Val, ValView, val_text};
use crate::paths::{home_directory, opt_view};
use crate::value::{Primitive, Value};

verus! {

/// A stage bound to a built-in, with its arguments as values.
#[derive(Debug)]
pub struct InternalCommand {
    pub command: Builtin,
    pub args: Vec<Value>,
}

/// A stage run as an operating-system program, with its arguments as text.
#[derive(Debug)]
pub struct ExternalCommand {
    pub command: String,
    pub args: Vec<String>,
}

/// A resolved stage.
#[derive(Debug)]
pub enum CommandType {
    Internal(InternalCommand),
    External(ExternalCommand),
}

/// A literal argument turned into a value: strings stay strings, numbers
/// become integers.
pub open spec fn arg_value_is(v: Value, a: ValView) -> bool {
    match a {
        ValView::String(s) => is_string_value(v, s),
        ValView::Num(n) => v == Value::Primitive(Primitive::Integer(n)),
    }
}

pub open spec fn is_string_value(v: Value, s: Seq<char>) -> bool {
    v matches Value::Primitive(Primitive::String(t)) && t@ == s
}

/// `c` is the stage that `p` resolves to: a built-in where the registry
/// binds the name, with its arguments as values; else an external program of
/// that name, with its arguments as text.
pub open spec fn resolved_as(c: CommandType, p: CommandView, ctx: Context) -> bool {
    match ctx.builtin_named(p.name) {
        Some(b) => match c {
            CommandType::Internal(ic) => ic.command == b && ic.args@.len() == p.args.len() && (
            forall|i: int| 0 <= i < p.args.len() ==> arg_value_is(#[trigger] ic.args@[i], p.args[i])),
            _ => false,
        },
        None => match c {
            CommandType::External(ec) => ec.command@ == p.name && ec.args@.len() == p.args.len()
                && (forall|i: int|
                0 <= i < p.args.len() ==> (#[trigger] ec.args@[i])@ == val_text(p.args[i])),
            _ => false,
        },
    }
}

fn val_to_value(v: Val) -> (r: Value)
    ensures
        arg_value_is(r, v@),
{
    match v {
        Val::String(s) => Value::string(s),
        Val::Num(n) => Value::integer(n),
    }
}

fn val_to_text(v: Val) -> (r: String)
    ensures
        r@ == val_text(v@),
{
    match v {
        Val::String(s) => s,
        Val::Num(n) => i64_text(n),
    }
}

/// Resolves a parsed stage against the registry.
pub fn parsed_to_command(ctx: &Context, parsed: ParsedCommand) -> (r: CommandType)
    ensures
        resolved_as(r, parsed@, *ctx),
{
    let ghost p = parsed@;
    let ghost exprs = parsed.args@;
    let ParsedCommand { name, args } = parsed;
    let mut args = args;
    let total = args.len();
    match ctx.builtin(name.as_str()) {
        Some(b) => {
            let mut values: Vec<Value> = Vec::new();
            while args.len() > 0
                invariant
                    values@.len() + args@.len() == total,
                    total == p.args.len(),
                    p.args == exprs.map_values(|e: Expr| e@),
                    args@ == exprs.skip(values@.len() as int),
                    forall|i: int|
                        0 <= i < values@.len() ==> arg_value_is(#[trigger] values@[i], p.args[i]),
                decreases args@.len(),
            {
                let Expr::Val(v) = args.remove(0);
                assert(p.args[values@.len() as int] == v@);
                values.push(val_to_value(v));
                assert(args@ =~= exprs.skip(values@.len() as int));
            }
            CommandType::Internal(InternalCommand { command: b, args: values })
        },
        None => {
            let mut texts: Vec<String> = Vec::new();
            while args.len() > 0
                invariant
                    texts@.len() + args@.len() == total,
                    total == p.args.len(),
                    p.args == exprs.map_values(|e: Expr| e@),
                    args@ == exprs.skip(texts@.len() as int),
                    forall|i: int|
                        0 <= i < texts@.len() ==> (#[trigger] texts@[i])@ == val_text(p.args[i]),
                decreases args@.len(),
            {
                let Expr::Val(v) = args.remove(0);
                assert(p.args[texts@.len() as int] == v@);
                texts.push(val_to_text(v));
                assert(args@ =~= exprs.skip(texts@.len() as int));
            }
            CommandType::External(ExternalCommand { command: name, args: texts })
        },
    }
}

/// Resolves every stage of a parsed pipeline, in order.
pub fn build_pipeline(ctx: &Context, pipeline: ParsedPipeline) -> (r: Vec<CommandType>)
    ensures
        r@.len() == pipeline@.len(),
        forall|i: int| 0 <= i < r@.len() ==> resolved_as(#[trigger] r@[i], pipeline@[i], *ctx),
{
    let ghost cs = pipeline.commands@;
    let ghost pv = pipeline@;
    let mut commands = pipeline.commands;
    let total = commands.len();
    let mut out: Vec<CommandType> = Vec::new();
    while commands.len() > 0
        invariant
            out@.len() + commands@.len() == total,
            total == pv.len(),
            pv == cs.map_values(|c: ParsedCommand| c@),
            commands@ == cs.skip(out@.len() as int),
            forall|i: int| 0 <= i < out@.len() ==> resolved_as(#[trigger] out@[i], pv[i], *ctx),
        decreases commands@.len(),
    {
        let c = commands.remove(0);
        assert(pv[out@.len() as int] == c@);
        out.push(parsed_to_command(ctx, c));
        assert(commands@ =~= cs.skip(out@.len() as int));
    }
    out
}

pub open spec fn is_internal(c: CommandType) -> bool {
    c is Internal
}

/// Adjacent stages are of the same kind: all built-ins, or all programs.
pub open spec fn transports_ok(s: Seq<CommandType>) -> bool {
    forall|i: int| 0 <= i < s.len() - 1 ==> is_internal(#[trigger] s[i]) == is_internal(s[i + 1])
}

/// Where an external program reads from.
#[derive(Clone, Copy, Debug, PartialEq, Eq, Structural)]
pub enum Stdin {
    Inherit,
    PreviousStage,
}

/// Where an external program writes to.
#[derive(Clone, Copy, Debug, PartialEq, Eq, Structural)]
pub enum Stdout {
    Inherit,
    Pipe,
}

/// One program to start, and how it is connected.
#[derive(Debug)]
pub struct Spawn {
    pub program: String,
    pub args: Vec<String>,
    pub stdin: Stdin,
    pub stdout: Stdout,
}

/// The spawn plan of a pipeline of programs: the first reads the shell's
/// input, each other reads the pipe of the one before, and each but the last
/// writes to a pipe; the last writes to the shell's output.
pub open spec fn spawn_plan_of(stages: Seq<ExternalCommand>, plan: Seq<Spawn>) -> bool {
    &&& plan.len() == stages.len()
    &&& forall|i: int|
        0 <= i < plan.len() ==> {
            &&& (#[trigger] plan[i]).program == stages[i].command
            &&& plan[i].args == stages[i].args
            &&& plan[i].stdin == (if i == 0 {
                Stdin::Inherit
            } else {
                Stdin::PreviousStage
            })
            &&& plan[i].stdout == (if i == plan.len() - 1 {
                Stdout::Inherit
            } else {
                Stdout::Pipe
            })
        }
}

impl ExternalCommand {
    /// How a program stage is started, given what flows into it and where it
    /// writes: it reads the shell's input when nothing flows in and the pipe
    /// of the program before it otherwise. A built-in's value cannot flow
    /// into a program.
    pub fn run(self, instream: RushStream, stdout: Stdout) -> (r: Result<Spawn, ShellError>)
        ensures
            match instream {
                RushStream::Internal(_) => r matches Err(e) && e@ == (
                    ErrorKind::UnsupportedTransport,
                    "internal -> external not supported yet"@,
                ),
                RushStream::External => r matches Ok(sp) && sp.program == self.command && sp.args
                    == self.args && sp.stdin == Stdin::PreviousStage && sp.stdout == stdout,
                RushStream::Empty => r matches Ok(sp) && sp.program == self.command && sp.args
                    == self.args && sp.stdin == Stdin::Inherit && sp.stdout == stdout,
            },
    {
        let stdin = match instream {
            RushStream::Internal(_) => {
                return Err(
                    ShellError::from_str(
                        ErrorKind::UnsupportedTransport,
                        "internal -> external not supported yet",
                    ),
                );
            },
            RushStream::External => Stdin::PreviousStage,
            RushStream::Empty => Stdin::Inherit,
        };
        Ok(Spawn { program: self.command, args: self.args, stdin, stdout })
    }
}

/// What to ask of the host before a built-in stage can run.
#[derive(Debug)]
pub enum Request {
    Nothing,
    ListDir(String),
    Processes,
    ChangeDir(String),
}

pub enum RequestView {
    Nothing,
    ListDir(Seq<char>),
    Processes,
    ChangeDir(Seq<char>),
}

impl View for Request {
    type V = RequestView;

    open spec fn view(&self) -> RequestView {
        match self {
            Request::Nothing => RequestView::Nothing,
            Request::ListDir(p) => RequestView::ListDir(p@),
            Request::Processes => RequestView::Processes,
            Request::ChangeDir(p) => RequestView::ChangeDir(p@),
        }
    }
}

/// What the host answers to a request.
#[derive(Debug)]
pub enum Reply {
    Nothing,
    Listing(Result<Vec<EntryRecord>, String>),
    Processes(Vec<ProcessRecord>),
    Moved(bool),
}

/// What a stage asks of the host: `ls` a listing of its target, `ps` a
/// process snapshot, `cd` a move to its target (when it has one); the others
/// nothing.
pub open spec fn request_for(
    c: InternalCommand,
    cwd: Seq<char>,
    home: Option<Seq<char>>,
) -> RequestView {
    match c.command {
        Builtin::Ls => RequestView::ListDir(ls_target(c.args@, cwd, home)),
        Builtin::Ps => RequestView::Processes,
        Builtin::Cd => match cd_target(c.args@, cwd, home) {
            Some(t) => RequestView::ChangeDir(t),
            None => RequestView::Nothing,
        },
        _ => RequestView::Nothing,
    }
}

/// The reply answers the request.
pub open spec fn reply_fits(q: RequestView, r: Reply) -> bool {
    match q {
        RequestView::Nothing => r is Nothing,
        RequestView::ListDir(_) => r is Listing,
        RequestView::Processes => r is Processes,
        RequestView::ChangeDir(_) => r is Moved,
    }
}

/// What a stage gives from its input and the host's reply.
pub open spec fn stage_outcome(
    c: InternalCommand,
    input: RushStream,
    reply: Reply,
    cwd: Seq<char>,
    home: Option<Seq<char>>,
    r: Result<Value, ShellError>,
) -> bool {
    match c.command {
        Builtin::SortBy => sortby_result(c.args@, input, r),
        Builtin::Limit => limit_result(c.args@, input, r),
        Builtin::Rev => rev_result(input, r),
        Builtin::Ls => match reply {
            Reply::Listing(Ok(es)) => listed(es@, r),
            Reply::Listing(Err(m)) => r matches Err(e) && e@ == (ErrorKind::Stage, m@),
            _ => false,
        },
        Builtin::Ps => match reply {
            Reply::Processes(ps) => snapshot(ps@, r),
            _ => false,
        },
        Builtin::Cd => match cd_target(c.args@, cwd, home) {
            None => r matches Err(e) && e@ == (ErrorKind::Stage, "cd : Could not find home path"@),
            Some(t) => match reply {
                Reply::Moved(true) => r matches Ok(v) && is_string_value(v, t),
                Reply::Moved(false) => r matches Err(e) && e@ == (
                    ErrorKind::Stage,
                    "cd : no such directory"@,
                ),
                _ => false,
            },
        },
    }
}

pub open spec fn listed(es: Seq<EntryRecord>, r: Result<Value, ShellError>) -> bool {
    r matches Ok(Value::List(l)) && entry_records(es, l@)
}

pub open spec fn snapshot(ps: Seq<ProcessRecord>, r: Result<Value, ShellError>) -> bool {
    r matches Ok(Value::List(l)) && process_records(ps, l@)
}

/// The current directory after a stage: the target of a `cd` that moved,
/// else unchanged.
pub open spec fn cwd_after(
    c: InternalCommand,
    reply: Reply,
    cwd: Seq<char>,
    home: Option<Seq<char>>,
) -> Seq<char> {
    match (c.command, cd_target(c.args@, cwd, home), reply) {
        (Builtin::Cd, Some(t), Reply::Moved(true)) => t,
        _ => cwd,
    }
}

/// The state of a pipeline of built-ins between two steps.
pub struct PipelineRun {
    pub stages: Vec<InternalCommand>,
    pub pos: usize,
    pub stream: RushStream,
    pub cwd: String,
    pub home: Option<String>,
    pub done: bool,
}

/// What the host does next.
#[derive(Debug)]
pub enum Step {
    Ask(Request),
    Done(Value),
    Failed(ShellError),
}

fn copy_home(h: &Option<String>) -> (r: Option<String>)
    ensures
        opt_view(r) == opt_view(*h),
{
    match h {
        Some(s) => Some(s.clone()),
        None => None,
    }
}

impl PipelineRun {
    /// A run of built-in stages from the current directory; the first stage
    /// reads nothing. The home directory is looked up once, here.
    pub fn new(stages: Vec<InternalCommand>, cwd: String) -> (r: Self)
        ensures
            r.stages == stages,
            r.pos == 0,
            r.stream is Empty,
            r.cwd == cwd,
            r.done == (stages@.len() == 0),
    {
        let done = stages.len() == 0;
        PipelineRun { stages, pos: 0, stream: RushStream::Empty, cwd, home: home_directory(), done }
    }

    /// What the current stage asks of the host.
    pub fn request(&self) -> (r: Request)
        requires
            self.pos < self.stages@.len(),
        ensures
            r@ == request_for(self.stages@[self.pos as int], self.cwd@, opt_view(self.home)),
    {
        let stage = &self.stages[self.pos];
        match stage.command {
            Builtin::Ls => Request::ListDir(Ls.target(&stage.args, &self.cwd, copy_home(&self.home))),
            Builtin::Ps => Request::Processes,
            Builtin::Cd => match Cd.target(&stage.args, &self.cwd, copy_home(&self.home)) {
                Ok(t) => Request::ChangeDir(t),
                Err(_) => Request::Nothing,
            },
            _ => Request::Nothing,
        }
    }

    /// Runs the current stage with the host's reply. On success the value
    /// goes to the next stage, whose request comes back, or is the result of
    /// the pipeline after the last stage. The first error ends the run.
    pub fn advance(&mut self, reply: Reply) -> (step: Step)
        requires
            !old(self).done,
            old(self).pos < old(self).stages@.len(),
            reply_fits(
                request_for(
                    old(self).stages@[old(self).pos as int],
                    old(self).cwd@,
                    opt_view(old(self).home),
                ),
                reply,
            ),
        ensures
            final(self).stages == old(self).stages,
            final(self).home == old(self).home,
            final(self).cwd@ == cwd_after(
                old(self).stages@[old(self).pos as int],
                reply,
                old(self).cwd@,
                opt_view(old(self).home),
            ),
            match step {
                Step::Failed(e) => final(self).done && stage_outcome(
                    old(self).stages@[old(self).pos as int],
                    old(self).stream,
                    reply,
                    old(self).cwd@,
                    opt_view(old(self).home),
                    Err(e),
                ),
                Step::Done(v) => final(self).done && old(self).pos + 1 == old(self).stages@.len()
                    && stage_outcome(
                    old(self).stages@[old(self).pos as int],
                    old(self).stream,
                    reply,
                    old(self).cwd@,
                    opt_view(old(self).home),
                    Ok(v),
                ),
                Step::Ask(q) => !final(self).done && final(self).pos == old(self).pos + 1
                    && final(self).pos < final(self).stages@.len() && passed_on(
                    final(self).stream,
                    old(self).stages@[old(self).pos as int],
                    old(self).stream,
                    reply,
                    old(self).cwd@,
                    opt_view(old(self).home),
                ) && q@ == request_for(
                    final(self).stages@[final(self).pos as int],
                    final(self).cwd@,
                    opt_view(final(self).home),
                ),
            },
    {
        let mut input = RushStream::Empty;
        std::mem::swap(&mut input, &mut self.stream);
        let ghost old_cwd = self.cwd@;
        let result = self.run_stage(input, reply);
        match result {
            Err(e) => {
                self.done = true;
                Step::Failed(e)
            },
            Ok(v) => {
                if self.pos == self.stages.len() - 1 {
                    self.done = true;
                    Step::Done(v)
                } else {
                    self.stream = RushStream::Internal(v);
                    self.pos = self.pos + 1;
                    Step::Ask(self.request())
                }
            },
        }
    }

    fn run_stage(&mut self, input: RushStream, reply: Reply) -> (r: Result<Value, ShellError>)
        requires
            old(self).pos < old(self).stages@.len(),
            reply_fits(
                request_for(
                    old(self).stages@[old(self).pos as int],
                    old(self).cwd@,
                    opt_view(old(self).home),
                ),
                reply,
            ),
        ensures
            final(self).stages == old(self).stages,
            final(self).home == old(self).home,
            final(self).pos == old(self).pos,
            final(self).done == old(self).done,
            final(self).cwd@ == cwd_after(
                old(self).stages@[old(self).pos as int],
                reply,
                old(self).cwd@,
                opt_view(old(self).home),
            ),
            stage_outcome(
                old(self).stages@[old(self).pos as int],
                input,
                reply,
                old(self).cwd@,
                opt_view(old(self).home),
                r,
            ),
    {
        let stage = &self.stages[self.pos];
        let r = stage.run(input, reply, &self.cwd, copy_home(&self.home));
        if let (Builtin::Cd, Ok(Value::Primitive(Primitive::String(t)))) = (stage.command, &r) {
            self.cwd = t.clone();
        }
        r
    }
}

impl InternalCommand {
    /// Runs a built-in on its input, with the host's answer to its request:
    /// `sortby`, `take` and `rev` work on the input list; `ls` and `ps` make
    /// records of what the host read; `cd` reports where the host moved, or
    /// why it could not.
    pub fn run(&self, input: RushStream, reply: Reply, cwd: &String, home: Option<String>) -> (r:
        Result<Value, ShellError>)
        requires
            reply_fits(request_for(*self, cwd@, opt_view(home)), reply),
        ensures
            stage_outcome(*self, input, reply, cwd@, opt_view(home), r),
    {
        match self.command {
            Builtin::SortBy => SortBy.run(&self.args, input),
            Builtin::Limit => Limit.run(&self.args, input),
            Builtin::Rev => Rev.run(input),
            Builtin::Ls => match reply {
                Reply::Listing(Ok(entries)) => Ok(Ls.run(entries)),
                Reply::Listing(Err(m)) => Err(ShellError::new(m)),
                _ => Err(ShellError::new(String::new())),
            },
            Builtin::Ps => match reply {
                Reply::Processes(procs) => Ok(Ps.run(procs)),
                _ => Err(ShellError::new(String::new())),
            },
            Builtin::Cd => match Cd.target(&self.args, cwd, home) {
                Err(e) => Err(e),
                Ok(t) => match reply {
                    Reply::Moved(moved) => Cd.run(t, moved),
                    _ => Err(ShellError::new(String::new())),
                },
            },
        }
    }
}

/// The value that a stage passed on is one that it could give.
pub open spec fn passed_on(
    s: RushStream,
    c: InternalCommand,
    input: RushStream,
    reply: Reply,
    cwd: Seq<char>,
    home: Option<Seq<char>>,
) -> bool {
    s matches RushStream::Internal(v) && stage_outcome(c, input, reply, cwd, home, Ok(v))
}

} // verus!
