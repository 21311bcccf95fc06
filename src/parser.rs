use vstd::prelude::*;
use crate::error::{ErrorKind, ShellError};
use crate::lex::{byte_model, lex, Span, Token, TokenView, lex_model, spanned_view, tokens_view};
use crate::numtext::{i64_text, int_text};

verus! {

/// A literal argument: a string or an integer.
#[derive(Debug)]
pub enum Val {
    String(String),
    Num(i64),
}

pub enum ValView {
    String(Seq<char>),
    Num(i64),
}

impl View for Val {
    type V = ValView;

    open spec fn view(&self) -> ValView {
        match self {
            Val::String(s) => ValView::String(s@),
            Val::Num(n) => ValView::Num(*n),
        }
    }
}

/// An argument expression. Only literals are produced by the grammar; richer
/// forms (lambdas, nested commands) would be added here as new variants.
#[derive(Debug)]
pub enum Expr {
    Val(Val),
}

impl View for Expr {
    type V = ValView;

    open spec fn view(&self) -> ValView {
        match self {
            Expr::Val(v) => v@,
        }
    }
}

/// One stage of a pipeline: the command name and its arguments.
#[derive(Debug)]
pub struct ParsedCommand {
    pub name: String,
    pub args: Vec<Expr>,
}

pub struct CommandView {
    pub name: Seq<char>,
    pub args: Seq<ValView>,
}

impl View for ParsedCommand {
    type V = CommandView;

    open spec fn view(&self) -> CommandView {
        CommandView { name: self.name@, args: self.args@.map_values(|e: Expr| e@) }
    }
}

/// The stages of a line, in order.
#[derive(Debug)]
pub struct ParsedPipeline {
    pub commands: Vec<ParsedCommand>,
}

impl View for ParsedPipeline {
    type V = Seq<CommandView>;

    open spec fn view(&self) -> Seq<CommandView> {
        commands_view(self.commands@)
    }
}

/// A token that can stand as a command name or an argument.
pub open spec fn is_word(t: TokenView) -> bool {
    t is Num || t is Item || t is QuotedItem
}

/// The tokens that the grammar admits anywhere in a line.
pub open spec fn is_allowed(t: TokenView) -> bool {
    is_word(t) || t is Pipe || t is Whitespace
}

/// The runs of tokens between pipe tokens, white space left out. A line
/// without pipes has one run; `n` pipes make `n + 1` runs.
pub open spec fn segments(ts: Seq<TokenView>) -> Seq<Seq<TokenView>>
    decreases ts.len(),
{
    if ts.len() == 0 {
        seq![seq![]]
    } else {
        let rest = segments(ts.drop_last());
        let t = ts.last();
        if t is Pipe {
            rest.push(seq![])
        } else if t is Whitespace {
            rest
        } else {
            rest.update(rest.len() - 1, rest.last().push(t))
        }
    }
}

/// A line parses when each token is a word, a pipe or white space, and no
/// run between pipes is empty (this also rules out an empty line).
pub open spec fn pipeline_ok(ts: Seq<TokenView>) -> bool {
    &&& forall|i: int| 0 <= i < ts.len() ==> is_allowed(#[trigger] ts[i])
    &&& forall|k: int|
        0 <= k < segments(ts).len() ==> (#[trigger] segments(ts)[k]).len() > 0
}

pub open spec fn word_val(t: TokenView) -> ValView {
    match t {
        TokenView::Num(n) => ValView::Num(n),
        TokenView::Item(s) => ValView::String(s),
        TokenView::QuotedItem(s) => ValView::String(s),
        _ => ValView::String(seq![]),
    }
}

/// The text of a literal; a number is written in decimal.
pub open spec fn val_text(v: ValView) -> Seq<char> {
    match v {
        ValView::String(s) => s,
        ValView::Num(n) => int_text(n as int),
    }
}

pub open spec fn seg_vals(seg: Seq<TokenView>) -> Seq<ValView> {
    seg.map_values(|t: TokenView| word_val(t))
}

pub open spec fn segs_vals(segs: Seq<Seq<TokenView>>) -> Seq<Seq<ValView>> {
    segs.map_values(|seg: Seq<TokenView>| seg_vals(seg))
}

/// The command that a run of words makes: the first word is the name, the
/// others are the arguments.
pub open spec fn command_of(vals: Seq<ValView>) -> CommandView {
    CommandView { name: val_text(vals[0]), args: vals.drop_first() }
}

pub open spec fn commands_of(groups: Seq<Seq<ValView>>) -> Seq<CommandView> {
    groups.map_values(|vals: Seq<ValView>| command_of(vals))
}

pub open spec fn commands_view(cs: Seq<ParsedCommand>) -> Seq<CommandView> {
    cs.map_values(|c: ParsedCommand| c@)
}

/// The pipeline that a token sequence denotes, where it parses.
pub open spec fn pipeline_model(ts: Seq<TokenView>) -> Seq<CommandView> {
    commands_of(segs_vals(segments(ts)))
}

pub open spec fn kinds(toks: Seq<(Token, Span)>) -> Seq<TokenView> {
    toks.map_values(|p: (Token, Span)| p.0@)
}

pub open spec fn vals_view(v: Seq<Val>) -> Seq<ValView> {
    v.map_values(|x: Val| x@)
}

pub open spec fn groups_view(d: Seq<Vec<Val>>) -> Seq<Seq<ValView>> {
    d.map_values(|v: Vec<Val>| vals_view(v@))
}

pub proof fn lemma_segments_nonempty(ts: Seq<TokenView>)
    ensures
        segments(ts).len() >= 1,
    decreases ts.len(),
{
    if ts.len() > 0 {
        lemma_segments_nonempty(ts.drop_last());
    }
}

proof fn lemma_word_step(
    rest: Seq<Seq<TokenView>>,
    t: TokenView,
    done: Seq<Seq<ValView>>,
    cur: Seq<ValView>,
)
    requires
        rest.len() >= 1,
        done.push(cur) == segs_vals(rest),
    ensures
        done.push(cur.push(word_val(t))) == segs_vals(
            rest.update(rest.len() - 1, rest.last().push(t)),
        ),
{
    let l = rest.len() - 1;
    assert(segs_vals(rest)[l] == seg_vals(rest[l]));
    assert(done.push(cur).len() == rest.len());
    assert(done.push(cur)[l] == cur);
    assert(seg_vals(rest[l].push(t)) =~= seg_vals(rest[l]).push(word_val(t)));
    assert forall|i: int| 0 <= i < l implies done.push(cur.push(word_val(t)))[i] == segs_vals(
        rest.update(rest.len() - 1, rest.last().push(t)),
    )[i] by {
        assert(done.push(cur)[i] == segs_vals(rest)[i]);
    }
    assert(done.push(cur.push(word_val(t))) =~= segs_vals(
        rest.update(rest.len() - 1, rest.last().push(t)),
    ));
}

fn copy_string(s: &String) -> (r: String)
    ensures
        r@ == s@,
{
    s.clone()
}

/// Reads the literals of a token sequence into its runs between pipes.
fn group_words(toks: &Vec<(Token, Span)>) -> (r: Option<Vec<Vec<Val>>>)
    ensures
        match r {
            Some(g) => (forall|i: int|
                0 <= i < toks@.len() ==> is_allowed(#[trigger] kinds(toks@)[i])) && groups_view(
                g@,
            ) == segs_vals(segments(kinds(toks@))),
            None => exists|i: int|
                0 <= i < toks@.len() && !is_allowed(#[trigger] kinds(toks@)[i]),
        },
{
    let ghost ks = kinds(toks@);
    let mut done: Vec<Vec<Val>> = Vec::new();
    let mut cur: Vec<Val> = Vec::new();
    let n = toks.len();
    let mut i: usize = 0;
    assert(ks.take(0) =~= seq![]);
    assert(segments(ks.take(0)) == seq![Seq::<TokenView>::empty()]);
    assert(seg_vals(Seq::<TokenView>::empty()) =~= seq![]);
    assert(segs_vals(seq![Seq::<TokenView>::empty()]) =~= seq![Seq::<ValView>::empty()]);
    assert(vals_view(cur@) =~= seq![]);
    assert(groups_view(done@) =~= seq![]);
    assert(groups_view(done@).push(vals_view(cur@)) =~= seq![Seq::<ValView>::empty()]);
    while i < n
        invariant
            n == toks@.len(),
            ks == kinds(toks@),
            i <= n,
            forall|j: int| 0 <= j < i ==> is_allowed(#[trigger] ks[j]),
            groups_view(done@).push(vals_view(cur@)) == segs_vals(segments(ks.take(i as int))),
        decreases n - i,
    {
        let ghost pre = ks.take(i as int);
        let ghost next = ks.take(i + 1);
        assert(next.drop_last() =~= pre);
        assert(next.last() == ks[i as int]);
        proof {
            lemma_segments_nonempty(pre);
        }
        let ghost rest = segments(pre);
        let ghost old_done = done@;
        let ghost old_cur = cur@;
        match &toks[i].0 {
            Token::Whitespace => {
                assert(segments(next) == rest);
            },
            Token::Pipe => {
                done.push(cur);
                cur = Vec::new();
                assert(segments(next) == rest.push(seq![]));
                assert(seg_vals(seq![]) =~= seq![]);
                assert(vals_view(cur@) =~= seq![]);
                assert(groups_view(done@) =~= groups_view(old_done).push(vals_view(old_cur)));
                assert(groups_view(done@).push(vals_view(cur@)) =~= segs_vals(rest).push(
                    seq![],
                ));
                assert(segs_vals(rest.push(seq![])) =~= segs_vals(rest).push(seg_vals(seq![])));
            },
            Token::Num(v) => {
                cur.push(Val::Num(*v));
                proof {
                    lemma_word_step(rest, ks[i as int], groups_view(done@), vals_view(old_cur));
                }
                assert(segments(next) == rest.update(rest.len() - 1, rest.last().push(ks[i as int])));
                assert(vals_view(cur@) =~= vals_view(old_cur).push(word_val(ks[i as int])));
            },
            Token::Item(s) => {
                cur.push(Val::String(copy_string(s)));
                proof {
                    lemma_word_step(rest, ks[i as int], groups_view(done@), vals_view(old_cur));
                }
                assert(segments(next) == rest.update(rest.len() - 1, rest.last().push(ks[i as int])));
                assert(vals_view(cur@) =~= vals_view(old_cur).push(word_val(ks[i as int])));
            },
            Token::QuotedItem(s) => {
                cur.push(Val::String(copy_string(s)));
                proof {
                    lemma_word_step(rest, ks[i as int], groups_view(done@), vals_view(old_cur));
                }
                assert(segments(next) == rest.update(rest.len() - 1, rest.last().push(ks[i as int])));
                assert(vals_view(cur@) =~= vals_view(old_cur).push(word_val(ks[i as int])));
            },
            _ => {
                assert(!is_allowed(ks[i as int]));
                return None;
            },
        }
        i = i + 1;
    }
    done.push(cur);
    assert(ks.take(n as int) =~= ks);
    assert(groups_view(done@) =~= segs_vals(segments(ks)));
    Some(done)
}

/// The text of a literal.
fn val_into_text(v: Val) -> (r: String)
    ensures
        r@ == val_text(v@),
{
    match v {
        Val::String(s) => s,
        Val::Num(n) => i64_text(n),
    }
}

/// Builds a command from a non-empty run of literals.
fn make_command(vals: Vec<Val>) -> (r: ParsedCommand)
    requires
        vals@.len() > 0,
    ensures
        r@ == command_of(vals_view(vals@)),
{
    let ghost all = vals@;
    let mut vals = vals;
    let first = vals.remove(0);
    let name = val_into_text(first);
    let mut args: Vec<Expr> = Vec::new();
    let ghost rest = vals@;
    assert(rest =~= all.drop_first());
    while vals.len() > 0
        invariant
            all.len() > 0,
            rest == all.drop_first(),
            args@.len() + vals@.len() == rest.len(),
            vals@ == rest.skip(args@.len() as int),
            args@.map_values(|e: Expr| e@) == vals_view(rest.take(args@.len() as int)),
        decreases vals@.len(),
    {
        let ghost k = args@.len() as int;
        let v = vals.remove(0);
        assert(v == rest[k as int]);
        assert(rest.take(k + 1) =~= rest.take(k as int).push(rest[k as int]));
        assert(vals_view(rest.take(k + 1)) =~= vals_view(rest.take(k as int)).push(v@));
        args.push(Expr::Val(v));
        assert(vals@ =~= rest.skip(args@.len() as int));
        assert(args@.map_values(|e: Expr| e@) =~= vals_view(rest.take(args@.len() as int)));
    }
    assert(rest.take(args@.len() as int) =~= rest);
    let r = ParsedCommand { name, args };
    assert(r@.args =~= vals_view(all).drop_first());
    r
}

/// Parses a token sequence into a pipeline. White space tokens are ignored;
/// every other token must be a literal or a pipe, and every stage must have
/// a name. Anything else is a parse error, and no partial pipeline is given.
pub fn parse_tokens(toks: &Vec<(Token, Span)>) -> (r: Result<ParsedPipeline, ShellError>)
    ensures
        match r {
            Ok(p) => pipeline_ok(kinds(toks@)) && p@ == pipeline_model(kinds(toks@)),
            Err(e) => !pipeline_ok(kinds(toks@)) && e.kind == ErrorKind::Parse,
        },
{
    let ghost ks = kinds(toks@);
    let groups = match group_words(toks) {
        Some(g) => g,
        None => {
            return Err(ShellError::from_str(ErrorKind::Parse, "parse error: unexpected token"));
        },
    };
    let ghost gv = groups_view(groups@);
    let n = groups.len();
    assert(gv.len() == n);
    assert(gv.len() == segments(ks).len());
    let mut k: usize = 0;
    while k < n
        invariant
            n == groups@.len(),
            gv == groups_view(groups@),
            gv == segs_vals(segments(ks)),
            ks == kinds(toks@),
            n == segments(ks).len(),
            k <= n,
            forall|j: int| 0 <= j < k ==> (#[trigger] segments(ks)[j]).len() > 0,
        decreases n - k,
    {
        assert(gv.len() == segments(ks).len());
        assert(gv[k as int] == vals_view(groups@[k as int]@));
        assert(gv[k as int] == seg_vals(segments(ks)[k as int]));
        assert(gv[k as int].len() == groups@[k as int]@.len());
        if groups[k].len() == 0 {
            assert(segments(ks)[k as int].len() == 0);
            return Err(ShellError::from_str(ErrorKind::Parse, "parse error: empty command"));
        }
        k = k + 1;
    }
    assert(n == segments(ks).len());
    assert forall|j: int| 0 <= j < n implies (#[trigger] groups@[j])@.len() > 0 by {
        assert(gv[j] == vals_view(groups@[j]@));
        assert(gv[j] == seg_vals(segments(ks)[j]));
    }
    let mut groups = groups;
    let mut commands: Vec<ParsedCommand> = Vec::new();
    let ghost all = groups@;
    while groups.len() > 0
        invariant
            all.len() == n,
            gv == groups_view(all),
            forall|j: int| 0 <= j < n ==> (#[trigger] all[j])@.len() > 0,
            commands@.len() + groups@.len() == n,
            groups@ == all.skip(commands@.len() as int),
            commands_view(commands@) == commands_of(gv.take(commands@.len() as int)),
        decreases groups@.len(),
    {
        let ghost j = commands@.len() as int;
        let g = groups.remove(0);
        assert(g == all[j]);
        assert(gv[j] == vals_view(g@));
        let c = make_command(g);
        assert(gv.take(j + 1) =~= gv.take(j).push(gv[j]));
        commands.push(c);
        assert(groups@ =~= all.skip(commands@.len() as int));
        assert(commands_of(gv.take(j + 1)) =~= commands_of(gv.take(j)).push(command_of(gv[j])));
        assert(commands_view(commands@) =~= commands_of(gv.take(j + 1)));
    }
    assert(gv.take(n as int) =~= gv);
    assert(commands_view(commands@) == commands_of(gv));
    let p = ParsedPipeline { commands };
    assert(p@ =~= pipeline_model(ks));
    Ok(p)
}

/// Lexes and parses a line.
pub fn parse(line: &str) -> (r: Result<ParsedPipeline, ShellError>)
    ensures
        match r {
            Ok(p) => pipeline_ok(line_kinds(line@)) && p@ == pipeline_model(line_kinds(line@)),
            Err(e) => !pipeline_ok(line_kinds(line@)) && e.kind == ErrorKind::Parse,
        },
{
    let toks = lex(line);
    proof {
        let m = lex_model(line@);
        assert(tokens_view(toks@).len() == m.len());
        assert forall|i: int| 0 <= i < m.len() implies kinds(toks@)[i] == line_kinds(line@)[i] by {
            assert(tokens_view(toks@)[i] == spanned_view(toks@[i]));
            assert(byte_model(line@)[i].0 == m[i].0);
        }
        assert(kinds(toks@) =~= line_kinds(line@));
    }
    parse_tokens(&toks)
}

/// The kinds of the tokens of a line.
pub open spec fn line_kinds(s: Seq<char>) -> Seq<TokenView> {
    lex_model(s).map_values(|t: (TokenView, int, int)| t.0)
}

} // verus!
