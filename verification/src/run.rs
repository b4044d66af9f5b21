//! Running generated code.
//!
//! The generated statements build a `Markup` at run time; Rust computes the
//! values of the expressions they hold. Given those values, in the order the
//! statements reach them, the statements can be run here: what a splice
//! renders to, whether a condition holds, how many times a loop's body runs,
//! which arm of a match is taken. A condition that is the literal `true` is
//! known to hold and takes no value.
use vstd::prelude::*;

use crate::codegen::{Program, Stmt, StmtV, lit_true, str_cdata_close, str_cdata_open, stmts_view};
use crate::escape::escaped_text;
use crate::markup::{Markup, attr_rendered_text, attr_text};
use crate::token::{Tok, TokenTree};

verus! {

/// The value that Rust computes for an expression of the generated code.
#[derive(Debug)]
pub enum Eval {
    /// What a splice gives: for `@expr`, what `Render` appends; for
    /// `@expr.raw`, the string itself.
    Text(String),
    /// Whether the condition of an `@if` (or of a conditional attribute)
    /// holds.
    Cond(bool),
    /// How many times the body of an `@for` or `@while` runs.
    Times(usize),
    /// The index of the arm that an `@match` takes.
    Arm(usize),
}

/// The value of an `Eval`.
pub enum EvalV {
    Text(Seq<char>),
    Cond(bool),
    Times(nat),
    Arm(nat),
}

impl Eval {
    pub open spec fn view(&self) -> EvalV {
        match self {
            Eval::Text(s) => EvalV::Text(s@),
            Eval::Cond(b) => EvalV::Cond(*b),
            Eval::Times(n) => EvalV::Times(*n as nat),
            Eval::Arm(i) => EvalV::Arm(*i as nat),
        }
    }
}

/// The values of a sequence of `Eval`s.
pub open spec fn evals_view(v: Seq<Eval>) -> Seq<EvalV> {
    Seq::new(v.len(), |i: int| v[i].view())
}

/// The outputs that statements write to: the top-level output and, inside
/// `@cdata`, the CDATA buffer.
pub struct Outputs {
    pub top: Seq<char>,
    pub cdata: Seq<char>,
}

/// Appends `s` to the current output.
pub open spec fn emit(o: Outputs, in_cdata: bool, s: Seq<char>) -> Outputs {
    if in_cdata {
        Outputs { top: o.top, cdata: o.cdata + s }
    } else {
        Outputs { top: o.top + s, cdata: o.cdata }
    }
}

/// Whether a condition is the literal `true`.
pub open spec fn is_literal_true(cond: Seq<Tok>) -> bool {
    cond.len() == 1 && cond[0].is_keyword(lit_true())
}

/// Runs `s` from outputs `o`, the values of its expressions being taken from
/// `ev` from index `k` on; `None` when a value is missing or of the wrong
/// kind. The result holds the outputs and the index of the next value.
pub open spec fn run_stmts(s: Seq<StmtV>, o: Outputs, in_cdata: bool, ev: Seq<EvalV>, k: int) -> Option<
    (Outputs, int),
>
    decreases s, 1nat, 0nat,
{
    if s.len() == 0 {
        Some((o, k))
    } else {
        match run_stmts(s.drop_last(), o, in_cdata, ev, k) {
            None => None,
            Some((o2, k2)) => run_stmt(s.last(), o2, in_cdata, ev, k2),
        }
    }
}

/// Runs a loop body `n` times.
pub open spec fn run_times(body: Seq<StmtV>, n: nat, o: Outputs, in_cdata: bool, ev: Seq<EvalV>, k: int) -> Option<
    (Outputs, int),
>
    decreases body, 2nat, n,
{
    if n == 0 {
        Some((o, k))
    } else {
        match run_times(body, (n - 1) as nat, o, in_cdata, ev, k) {
            None => None,
            Some((o2, k2)) => run_stmts(body, o2, in_cdata, ev, k2),
        }
    }
}

/// Runs one statement.
pub open spec fn run_stmt(x: StmtV, o: Outputs, in_cdata: bool, ev: Seq<EvalV>, k: int) -> Option<
    (Outputs, int),
>
    decreases x, 0nat, 0nat,
{
    match x {
        StmtV::PushStr(s) => Some((emit(o, in_cdata, s), k)),
        StmtV::PushText(s) => Some((emit(o, in_cdata, escaped_text(s)), k)),
        StmtV::PushAttr { name, value } => Some((emit(o, in_cdata, attr_text(name, value)), k)),
        StmtV::Render(_) | StmtV::PushRaw(_) => {
            if 0 <= k < ev.len() && ev[k] is Text {
                Some((emit(o, in_cdata, ev[k]->Text_0), k + 1))
            } else {
                None
            }
        },
        StmtV::RenderAttr { name, .. } => {
            if 0 <= k < ev.len() && ev[k] is Text {
                Some((emit(o, in_cdata, attr_rendered_text(name, ev[k]->Text_0)), k + 1))
            } else {
                None
            }
        },
        StmtV::If { cond, then, else_ } => {
            if is_literal_true(cond) {
                run_stmts(then, o, in_cdata, ev, k)
            } else if 0 <= k < ev.len() && ev[k] is Cond {
                if ev[k]->Cond_0 {
                    run_stmts(then, o, in_cdata, ev, k + 1)
                } else {
                    match else_ {
                        Some(e) => run_stmts(e, o, in_cdata, ev, k + 1),
                        None => Some((o, k + 1)),
                    }
                }
            } else {
                None
            }
        },
        StmtV::For { body, .. } | StmtV::While { body, .. } => {
            if 0 <= k < ev.len() && ev[k] is Times {
                run_times(body, ev[k]->Times_0, o, in_cdata, ev, k + 1)
            } else {
                None
            }
        },
        StmtV::Match { arms, .. } => {
            if 0 <= k < ev.len() && ev[k] is Arm && ev[k]->Arm_0 < arms.len() {
                let i = ev[k]->Arm_0 as int;
                proof {
                    assert(decreases_to!(arms => arms[i]));
                }
                run_stmts(arms[i].1, o, in_cdata, ev, k + 1)
            } else {
                None
            }
        },
        StmtV::Cdata(body) => {
            let start = Outputs { top: o.top + str_cdata_open(), cdata: seq![] };
            match run_stmts(body, start, true, ev, k) {
                None => None,
                Some((o2, k2)) => Some((Outputs { top: o2.top + o2.cdata + str_cdata_close(), cdata: o.cdata }, k2)),
            }
        },
    }
}

/// Once a prefix of the statements cannot be run, no longer prefix can.
proof fn lemma_run_stuck(s: Seq<StmtV>, o: Outputs, in_cdata: bool, ev: Seq<EvalV>, k: int, j: int, m: int)
    requires
        0 <= j <= m <= s.len(),
        run_stmts(s.take(j), o, in_cdata, ev, k) is None,
    ensures
        run_stmts(s.take(m), o, in_cdata, ev, k) is None,
    decreases m - j,
{
    if m > j {
        lemma_run_stuck(s, o, in_cdata, ev, k, j, m - 1);
        assert(s.take(m).drop_last() =~= s.take(m - 1));
    }
}

/// Running one more statement of a prefix.
proof fn lemma_run_step(s: Seq<StmtV>, o: Outputs, in_cdata: bool, ev: Seq<EvalV>, k: int, i: int)
    requires
        0 <= i < s.len(),
    ensures
        run_stmts(s.take(i + 1), o, in_cdata, ev, k) == match run_stmts(s.take(i), o, in_cdata, ev, k) {
            None => None,
            Some((o2, k2)) => run_stmt(s[i], o2, in_cdata, ev, k2),
        },
{
    let t = s.take(i + 1);
    assert(t.len() > 0);
    assert(t.drop_last() =~= s.take(i));
    assert(t.last() == s[i]);
}

/// Once a loop body cannot be run, no later iteration can.
proof fn lemma_times_stuck(body: Seq<StmtV>, o: Outputs, in_cdata: bool, ev: Seq<EvalV>, k: int, j: nat, m: nat)
    requires
        j <= m,
        run_times(body, j, o, in_cdata, ev, k) is None,
    ensures
        run_times(body, m, o, in_cdata, ev, k) is None,
    decreases m - j,
{
    if m > j {
        lemma_times_stuck(body, o, in_cdata, ev, k, j, (m - 1) as nat);
    }
}

fn push_to(top: &mut Markup, cdata: &mut Markup, in_cdata: bool, s: &str)
    ensures
        emit(Outputs { top: old(top)@, cdata: old(cdata)@ }, in_cdata, s@) == (Outputs { top: final(top)@, cdata: final(cdata)@ }),
{
    if in_cdata {
        cdata.push_str(s);
    } else {
        top.push_str(s);
    }
}

fn push_attr_to(top: &mut Markup, cdata: &mut Markup, in_cdata: bool, name: &str, value: &str)
    ensures
        emit(Outputs { top: old(top)@, cdata: old(cdata)@ }, in_cdata, attr_text(name@, value@)) == (Outputs { top: final(top)@, cdata: final(cdata)@ }),
{
    if in_cdata {
        cdata.push_attr(name, value);
    } else {
        top.push_attr(name, value);
    }
}

/// The text of the value at `k`, if it is one.
fn text_at(vals: &Vec<Eval>, k: usize) -> (r: Option<&String>)
    ensures
        match r {
            Some(s) => k < vals@.len() && evals_view(vals@)[k as int] == EvalV::Text(s@),
            None => !(k < vals@.len() && evals_view(vals@)[k as int] is Text),
        },
{
    if k < vals.len() {
        match &vals[k] {
            Eval::Text(s) => Some(s),
            _ => None,
        }
    } else {
        None
    }
}

/// Runs a loop body `n` times, from value `k` on.
fn run_loop(
    body: &Vec<Stmt>,
    n: usize,
    top: &mut Markup,
    cdata: &mut Markup,
    in_cdata: bool,
    vals: &Vec<Eval>,
    k: usize,
) -> (r: Option<usize>)
    requires
        k <= vals@.len(),
    ensures
        match run_times(stmts_view(body@), n as nat, Outputs { top: old(top)@, cdata: old(cdata)@ }, in_cdata, evals_view(vals@), k as int) {
            Some((o, k2)) => k <= k2 <= vals@.len() && r == Some(k2 as usize) && final(top)@ == o.top && final(cdata)@ == o.cdata,
            None => r is None,
        },
    decreases body, 2nat, n,
{
    assert(vals.len() == vals@.len());
    let ghost bv = stmts_view(body@);
    let ghost o0 = Outputs { top: top@, cdata: cdata@ };
    let ghost ev = evals_view(vals@);
    let mut cur = k;
    let mut i: usize = 0;
    while i < n
        invariant
            i <= n,
            bv == stmts_view(body@),
            ev == evals_view(vals@),
            run_times(bv, i as nat, o0, in_cdata, ev, k as int) == Some((Outputs { top: top@, cdata: cdata@ }, cur as int)),
            k <= cur <= vals@.len(),
            vals@.len() <= usize::MAX,
            o0 == (Outputs { top: old(top)@, cdata: old(cdata)@ }),
        decreases n - i,
    {
        let ghost prev = Outputs { top: top@, cdata: cdata@ };
        assert(run_times(bv, (i + 1) as nat, o0, in_cdata, ev, k as int) == run_stmts(bv, prev, in_cdata, ev, cur as int));
        match run_block(body, top, cdata, in_cdata, vals, cur) {
            None => {
                proof {
                    assert(run_times(bv, (i + 1) as nat, o0, in_cdata, ev, k as int) is None);
                    lemma_times_stuck(bv, o0, in_cdata, ev, k as int, (i + 1) as nat, n as nat);
                }
                return None;
            },
            Some(k2) => {
                cur = k2;
            },
        }
        i = i + 1;
    }
    Some(cur)
}

/// Runs one statement; `None` when a value it needs is missing or of the
/// wrong kind.
fn run_one(x: &Stmt, top: &mut Markup, cdata: &mut Markup, in_cdata: bool, vals: &Vec<Eval>, k: usize) -> (r: Option<usize>)
    requires
        k <= vals@.len(),
    ensures
        match run_stmt(x.view(), Outputs { top: old(top)@, cdata: old(cdata)@ }, in_cdata, evals_view(vals@), k as int) {
            Some((o, k2)) => k <= k2 <= vals@.len() && r == Some(k2 as usize) && final(top)@ == o.top && final(cdata)@ == o.cdata,
            None => r is None,
        },
    decreases x, 0nat, 0nat,
{
    assert(vals.len() == vals@.len());
    match x {
        Stmt::PushStr(s) => {
            push_to(top, cdata, in_cdata, s.as_str());
            Some(k)
        },
        Stmt::PushText(s) => {
            if in_cdata {
                cdata.push_text(s.as_str());
            } else {
                top.push_text(s.as_str());
            }
            Some(k)
        },
        Stmt::PushAttr { name, value } => {
            push_attr_to(top, cdata, in_cdata, name.as_str(), value.as_str());
            Some(k)
        },
        Stmt::Render(_) | Stmt::PushRaw(_) => {
            match text_at(vals, k) {
                Some(s) => {
                    push_to(top, cdata, in_cdata, s.as_str());
                    Some(k + 1)
                },
                None => None,
            }
        },
        Stmt::RenderAttr { name, .. } => {
            match text_at(vals, k) {
                Some(s) => {
                    if in_cdata {
                        cdata.push_attr_rendered(name.as_str(), s.as_str());
                    } else {
                        top.push_attr_rendered(name.as_str(), s.as_str());
                    }
                    Some(k + 1)
                },
                None => None,
            }
        },
        Stmt::If { cond, then, else_ } => {
            assert(x.view()->If_then =~= stmts_view(then@));
            if cond_is_literal_true(cond) {
                run_block(then, top, cdata, in_cdata, vals, k)
            } else if k < vals.len() {
                match &vals[k] {
                    Eval::Cond(b) => {
                        if *b {
                            run_block(then, top, cdata, in_cdata, vals, k + 1)
                        } else {
                            match else_ {
                                Some(e) => {
                                    assert(x.view()->If_else_ == Some(stmts_view(e@)));
                                    run_block(e, top, cdata, in_cdata, vals, k + 1)
                                },
                                None => Some(k + 1),
                            }
                        }
                    },
                    _ => None,
                }
            } else {
                None
            }
        },
        Stmt::For { body, .. } | Stmt::While { body, .. } => {
            assert(x.view() is For ==> x.view()->For_body =~= stmts_view(body@));
            assert(x.view() is While ==> x.view()->While_body =~= stmts_view(body@));
            if k < vals.len() {
                match &vals[k] {
                    Eval::Times(n) => run_loop(body, *n, top, cdata, in_cdata, vals, k + 1),
                    _ => None,
                }
            } else {
                None
            }
        },
        Stmt::Match { arms, .. } => {
            if k < vals.len() {
                match &vals[k] {
                    Eval::Arm(i) => {
                        if *i < arms.len() {
                            let arm = &arms[*i];
                            proof {
                                broadcast use vstd::std_specs::vec::axiom_vec_index_decreases;
                                assert(decreases_to!(arms => arms[*i as int]));
                            }
                            assert(x.view()->Match_arms[*i as int].1 =~= stmts_view(arm.body@));
                            run_block(&arm.body, top, cdata, in_cdata, vals, k + 1)
                        } else {
                            None
                        }
                    },
                    _ => None,
                }
            } else {
                None
            }
        },
        Stmt::Cdata(body) => {
            assert(x.view()->Cdata_0 =~= stmts_view(body@));
            proof {
                reveal_strlit("<![CDATA[");
                reveal_strlit("]]>");
                assert("<![CDATA["@ =~= str_cdata_open());
                assert("]]>"@ =~= str_cdata_close());
            }
            top.push_str("<![CDATA[");
            let mut buf = Markup::new();
            match run_block(body, top, &mut buf, true, vals, k) {
                None => None,
                Some(k2) => {
                    top.push_str(buf.as_str());
                    top.push_str("]]>");
                    Some(k2)
                },
            }
        },
    }
}

fn cond_is_literal_true(cond: &Vec<TokenTree>) -> (r: bool)
    ensures
        r == is_literal_true(crate::token::toks(cond@)),
{
    proof {
        reveal_strlit("true");
        assert("true"@ =~= lit_true());
    }
    if cond.len() != 1 {
        return false;
    }
    match &cond[0] {
        TokenTree::Ident { name, .. } => *name == "true".to_owned(),
        _ => false,
    }
}

/// Runs statements in order; `None` when one of them cannot be run.
fn run_block(stmts: &Vec<Stmt>, top: &mut Markup, cdata: &mut Markup, in_cdata: bool, vals: &Vec<Eval>, k: usize) -> (r: Option<usize>)
    requires
        k <= vals@.len(),
    ensures
        match run_stmts(stmts_view(stmts@), Outputs { top: old(top)@, cdata: old(cdata)@ }, in_cdata, evals_view(vals@), k as int) {
            Some((o, k2)) => k <= k2 <= vals@.len() && r == Some(k2 as usize) && final(top)@ == o.top && final(cdata)@ == o.cdata,
            None => r is None,
        },
    decreases stmts, 1nat, 0nat,
{
    assert(vals.len() == vals@.len());
    let ghost sv = stmts_view(stmts@);
    let ghost o0 = Outputs { top: top@, cdata: cdata@ };
    let ghost ev = evals_view(vals@);
    let mut cur = k;
    let mut i: usize = 0;
    assert(sv.take(0) =~= Seq::<StmtV>::empty());
    while i < stmts.len()
        invariant
            i <= stmts@.len(),
            sv == stmts_view(stmts@),
            ev == evals_view(vals@),
            run_stmts(sv.take(i as int), o0, in_cdata, ev, k as int) == Some((Outputs { top: top@, cdata: cdata@ }, cur as int)),
            k <= cur <= vals@.len(),
            vals@.len() <= usize::MAX,
            o0 == (Outputs { top: old(top)@, cdata: old(cdata)@ }),
        decreases stmts@.len() - i,
    {
        proof {
            broadcast use vstd::std_specs::vec::axiom_vec_index_decreases;
            assert(decreases_to!(stmts => stmts[i as int]));
            lemma_run_step(sv, o0, in_cdata, ev, k as int, i as int);
        }
        let ghost before = Outputs { top: top@, cdata: cdata@ };
        let ghost res = run_stmt(sv[i as int], before, in_cdata, ev, cur as int);
        assert(stmts[i as int].view() == sv[i as int]);
        match run_one(&stmts[i], top, cdata, in_cdata, vals, cur) {
            None => {
                proof {
                    assert(res is None);
                    assert(run_stmts(sv.take(i + 1), o0, in_cdata, ev, k as int) is None);
                    lemma_run_stuck(sv, o0, in_cdata, ev, k as int, i + 1, sv.len() as int);
                    assert(sv.take(sv.len() as int) =~= sv);
                    assert(run_stmts(sv, o0, in_cdata, ev, k as int) is None);
                }
                return None;
            },
            Some(k2) => {
                assert(res == Some((Outputs { top: top@, cdata: cdata@ }, k2 as int)));
                cur = k2;
            },
        }
        i = i + 1;
    }
    assert(sv.take(sv.len() as int) =~= sv);
    Some(cur)
}

impl Program {
    /// Runs the program, given the values of the expressions it reaches, in
    /// order: `Some` of the markup when every value was there, of the kind
    /// its statement needs, and every value was used; `None` otherwise.
    pub fn render(&self, values: &Vec<Eval>) -> (r: Option<Markup>)
        ensures
            match run_stmts(self.stmts(), Outputs { top: seq![], cdata: seq![] }, false, evals_view(values@), 0) {
                Some((o, k)) => if k == values@.len() {
                    r matches Some(m) && m@ == o.top
                } else {
                    r is None
                },
                None => r is None,
            },
    {
        let mut top = Markup::with_capacity(self.capacity);
        let mut scratch = Markup::new();
        assert(Outputs { top: top@, cdata: scratch@ } == Outputs { top: seq![], cdata: seq![] });
        match run_block(&self.body, &mut top, &mut scratch, false, values, 0) {
            Some(k) => {
                if k == values.len() {
                    Some(top)
                } else {
                    None
                }
            },
            None => None,
        }
    }
}

} // verus!
