//! The recursive-descent view parser.
//!
//! Every executable parse function mirrors a specification function over the
//! token models exactly; its contract says that it returns precisely what the
//! specification function computes.  All malformed input is reported as a
//! [`ParseError`]; no verified function here panics.

use vstd::prelude::*;
use vstd::string::StringExecFns;
use crate::tokens::Token;
use crate::tokens::TokenV;
use crate::tokens::Punct;
use crate::tokens::Delim;
use crate::tokens::toks_view;
use crate::tokens::lemma_toks_view;
use crate::tokens::lemma_toks_view_push;
use crate::tokens::clone_toks;
use crate::tokens::size_from;
use crate::tokens::lemma_size_from_mono;
use crate::tokens::lemma_group_size;
use crate::ir::Event;
use crate::ir::EventV;
use crate::ir::EventValue;
use crate::ir::EventValueV;
use crate::ir::EventValueReturn;
use crate::ir::EventValueReturnV;
use crate::ir::EitherWidget;
use crate::ir::EitherWidgetV;
use crate::ir::GtkWidget;
use crate::ir::GtkWidgetV;
use crate::ir::RelmWidget;
use crate::ir::RelmWidgetV;
use crate::ir::Widget;
use crate::ir::WidgetV;
use crate::ir::WidgetPath;
use crate::ir::WidgetPathV;
use crate::ir::events_view;
use crate::ir::props_view;
use crate::ir::gtk_events_view;
use crate::ir::relm_events_view;
use crate::ir::spans_view;
use crate::ir::widgets_view;
use crate::ir::lemma_widgets_view_push;
use crate::ir::lemma_spans_view_push;
use crate::ir::opt_str_view;
use crate::names::NameGen;
use crate::names::bump_counts;
use crate::names::lower_seq;
use crate::names::strs_view;
use crate::names::lemma_strs_view_push;

verus! {

/// A fatal parse failure.  Each variant names the grammar position; where a
/// token is carried it is the offending token (`None` marks end of input).
#[derive(Debug, PartialEq)]
pub enum ParseError {
    /// An identifier was required.
    ExpectedIdent(Option<Token>),
    /// The first token of a bracketed attribute was not an identifier.
    ExpectedAttributeIdent(Option<Token>),
    /// A widget declaration did not start with a qualified name.
    ExpectedQualifiedName(Option<Token>),
    /// A widget body (brace group) was required.
    ExpectedBrace(Option<Token>),
    /// After an entry's identifier, none of `:`, `(`, `=>` followed.
    ExpectedPropertyOrEvent(Option<Token>),
    /// `=>` was required.
    ExpectedFatArrow(Option<Token>),
    /// `with` must be followed by an identifier.
    ExpectedIdentAfterWith(Option<Token>),
    /// A paired-return group needs a comma between its two expressions.
    ExpectedComma(Option<Token>),
    /// A group cannot stand in an event parameter list.
    ExpectedAtom(Token),
    /// The input ended inside a construct.
    UnexpectedEnd,
}

/// Model of a [`ParseError`].
pub enum ParseErrorV {
    ExpectedIdent(Option<TokenV>),
    ExpectedAttributeIdent(Option<TokenV>),
    ExpectedQualifiedName(Option<TokenV>),
    ExpectedBrace(Option<TokenV>),
    ExpectedPropertyOrEvent(Option<TokenV>),
    ExpectedFatArrow(Option<TokenV>),
    ExpectedIdentAfterWith(Option<TokenV>),
    ExpectedComma(Option<TokenV>),
    ExpectedAtom(TokenV),
    UnexpectedEnd,
}

/// View of an optional token.
pub open spec fn opt_tok_view(o: Option<Token>) -> Option<TokenV> {
    match o {
        Option::Some(t) => Option::Some(t@),
        Option::None => Option::None,
    }
}

impl View for ParseError {
    type V = ParseErrorV;

    open spec fn view(&self) -> ParseErrorV {
        match self {
            ParseError::ExpectedIdent(t) => ParseErrorV::ExpectedIdent(opt_tok_view(*t)),
            ParseError::ExpectedAttributeIdent(t) => ParseErrorV::ExpectedAttributeIdent(
                opt_tok_view(*t),
            ),
            ParseError::ExpectedQualifiedName(t) => ParseErrorV::ExpectedQualifiedName(
                opt_tok_view(*t),
            ),
            ParseError::ExpectedBrace(t) => ParseErrorV::ExpectedBrace(opt_tok_view(*t)),
            ParseError::ExpectedPropertyOrEvent(t) => ParseErrorV::ExpectedPropertyOrEvent(
                opt_tok_view(*t),
            ),
            ParseError::ExpectedFatArrow(t) => ParseErrorV::ExpectedFatArrow(opt_tok_view(*t)),
            ParseError::ExpectedIdentAfterWith(t) => ParseErrorV::ExpectedIdentAfterWith(
                opt_tok_view(*t),
            ),
            ParseError::ExpectedComma(t) => ParseErrorV::ExpectedComma(opt_tok_view(*t)),
            ParseError::ExpectedAtom(t) => ParseErrorV::ExpectedAtom(t@),
            ParseError::UnexpectedEnd => ParseErrorV::UnexpectedEnd,
        }
    }
}

/// The message for each failure, by grammar position.
pub open spec fn sp_describe(e: ParseErrorV) -> Seq<char> {
    match e {
        ParseErrorV::ExpectedIdent(_) => "expected an identifier"@,
        ParseErrorV::ExpectedAttributeIdent(_) => "expected an identifier to open an attribute"@,
        ParseErrorV::ExpectedQualifiedName(_) => "expected a qualified widget name"@,
        ParseErrorV::ExpectedBrace(_) => "expected a brace-delimited widget body"@,
        ParseErrorV::ExpectedPropertyOrEvent(_) => "expected `:`, `(` or `=>` after the entry's identifier"@,
        ParseErrorV::ExpectedFatArrow(_) => "expected `=>`"@,
        ParseErrorV::ExpectedIdentAfterWith(_) => "expected an identifier after `with`"@,
        ParseErrorV::ExpectedComma(_) => "expected `,` between the sent and returned expressions"@,
        ParseErrorV::ExpectedAtom(_) => "expected an atomic token in the parameter list"@,
        ParseErrorV::UnexpectedEnd => "unexpected end of the view declaration"@,
    }
}

impl ParseError {
    /// A human-readable message naming the grammar position; the offending
    /// token, where there is one, is carried by the variant itself.
    pub fn describe(&self) -> (r: String)
        ensures
            r@ == sp_describe(self@),
    {
        match self {
            ParseError::ExpectedIdent(_) => String::from_str("expected an identifier"),
            ParseError::ExpectedAttributeIdent(_) => String::from_str(
                "expected an identifier to open an attribute",
            ),
            ParseError::ExpectedQualifiedName(_) => String::from_str(
                "expected a qualified widget name",
            ),
            ParseError::ExpectedBrace(_) => String::from_str(
                "expected a brace-delimited widget body",
            ),
            ParseError::ExpectedPropertyOrEvent(_) => String::from_str(
                "expected `:`, `(` or `=>` after the entry's identifier",
            ),
            ParseError::ExpectedFatArrow(_) => String::from_str("expected `=>`"),
            ParseError::ExpectedIdentAfterWith(_) => String::from_str(
                "expected an identifier after `with`",
            ),
            ParseError::ExpectedComma(_) => String::from_str(
                "expected `,` between the sent and returned expressions",
            ),
            ParseError::ExpectedAtom(_) => String::from_str(
                "expected an atomic token in the parameter list",
            ),
            ParseError::UnexpectedEnd => String::from_str(
                "unexpected end of the view declaration",
            ),
        }
    }
}

/// The token at `pos`, if any; the payload of most errors.
pub open spec fn sp_found(toks: Seq<TokenV>, pos: int) -> Option<TokenV> {
    if 0 <= pos < toks.len() {
        Option::Some(toks[pos])
    } else {
        Option::None
    }
}

/// Deep copy of the token at `pos`, wrapped for an error payload.
fn found_at(tokens: &Vec<Token>, pos: usize) -> (r: Option<Token>)
    ensures
        opt_tok_view(r) == sp_found(toks_view(tokens@), pos as int),
{
    proof {
        lemma_toks_view(tokens@);
    }
    if pos < tokens.len() {
        Option::Some(tokens[pos].clone())
    } else {
        Option::None
    }
}

// ---------------------------------------------------------------------------
// Association lists with unique keys (the maps of the representation).
// ---------------------------------------------------------------------------

/// Whether the association list holds an entry for `k`.
pub open spec fn assoc_has<V>(m: Seq<(Seq<char>, V)>, k: Seq<char>) -> bool {
    exists|i: int| 0 <= i < m.len() && m[i].0 == k
}

/// The index of the entry for `k`; meaningful when `assoc_has` holds and the
/// keys are distinct.
pub open spec fn assoc_index<V>(m: Seq<(Seq<char>, V)>, k: Seq<char>) -> int {
    choose|i: int| 0 <= i < m.len() && m[i].0 == k
}

/// Keys are distinct.
pub open spec fn assoc_wf<V>(m: Seq<(Seq<char>, V)>) -> bool {
    forall|i: int, j: int| 0 <= i < j < m.len() ==> m[i].0 != m[j].0
}

/// Insertion with silent overwrite: the later write wins.
pub open spec fn assoc_set<V>(m: Seq<(Seq<char>, V)>, k: Seq<char>, v: V) -> Seq<(Seq<char>, V)> {
    if assoc_has(m, k) {
        m.update(assoc_index(m, k), (k, v))
    } else {
        m.push((k, v))
    }
}

/// Append one more binding to the entry for `k`, creating the entry if it is
/// not there yet.
pub open spec fn assoc_append<V>(m: Seq<(Seq<char>, Seq<V>)>, k: Seq<char>, v: V) -> Seq<
    (Seq<char>, Seq<V>),
> {
    if assoc_has(m, k) {
        m.update(assoc_index(m, k), (k, m[assoc_index(m, k)].1.push(v)))
    } else {
        m.push((k, seq![v]))
    }
}

/// `assoc_set` keeps the keys distinct.
pub proof fn lemma_assoc_set_wf<V>(m: Seq<(Seq<char>, V)>, k: Seq<char>, v: V)
    requires
        assoc_wf(m),
    ensures
        assoc_wf(assoc_set(m, k, v)),
{
    if assoc_has(m, k) {
        let i = assoc_index(m, k);
        assert(0 <= i < m.len() && m[i].0 == k);
    }
}

/// `assoc_append` keeps the keys distinct.
pub proof fn lemma_assoc_append_wf<V>(m: Seq<(Seq<char>, Seq<V>)>, k: Seq<char>, v: V)
    requires
        assoc_wf(m),
    ensures
        assoc_wf(assoc_append(m, k, v)),
{
    if assoc_has(m, k) {
        let i = assoc_index(m, k);
        assert(0 <= i < m.len() && m[i].0 == k);
    }
}

/// Insert an opaque expression under `k`, the later write winning.
fn insert_span(m: Vec<(String, Vec<Token>)>, k: String, v: Vec<Token>) -> (r: Vec<
    (String, Vec<Token>),
>)
    requires
        assoc_wf(props_view(m@)),
    ensures
        props_view(r@) == assoc_set(props_view(m@), k@, toks_view(v@)),
        assoc_wf(props_view(r@)),
{
    proof {
        lemma_assoc_set_wf(props_view(m@), k@, toks_view(v@));
    }
    let ghost m0 = props_view(m@);
    let mut mm = m;
    let n = mm.len();
    let mut i: usize = 0;
    while i < n
        invariant
            i <= n,
            n == mm@.len(),
            props_view(mm@) == m0,
            m0 == props_view(m@),
            assoc_wf(m0),
            forall|q: int| 0 <= q < i ==> m0[q].0 != k@,
        decreases n - i,
    {
        if mm[i].0 == k {
            proof {
                assert(m0[i as int].0 == k@);
                assert(assoc_has(m0, k@));
                let j = assoc_index(m0, k@);
                assert(0 <= j < m0.len() && m0[j].0 == k@);
                assert(j == i as int);
            }
            let ghost kv = k@;
            let ghost vv = toks_view(v@);
            mm[i] = (k, v);
            proof {
                assert(props_view(mm@) =~= assoc_set(m0, kv, vv));
                assert(props_view(mm@) == assoc_set(props_view(m@), k@, toks_view(v@)));
            }
            return mm;
        }
        i += 1;
    }
    proof {
        assert(!assoc_has(m0, k@));
    }
    mm.push((k, v));
    proof {
        assert(props_view(mm@) =~= assoc_set(m0, k@, toks_view(v@)));
    }
    mm
}

/// Insert a toolkit signal binding under `k`: the last declaration wins.
fn insert_gtk_event(m: Vec<(String, Event)>, k: String, e: Event) -> (r: Vec<(String, Event)>)
    requires
        assoc_wf(gtk_events_view(m@)),
    ensures
        gtk_events_view(r@) == assoc_set(gtk_events_view(m@), k@, e@),
        assoc_wf(gtk_events_view(r@)),
{
    proof {
        lemma_assoc_set_wf(gtk_events_view(m@), k@, e@);
    }
    let ghost m0 = gtk_events_view(m@);
    let mut mm = m;
    let n = mm.len();
    let mut i: usize = 0;
    while i < n
        invariant
            i <= n,
            n == mm@.len(),
            gtk_events_view(mm@) == m0,
            m0 == gtk_events_view(m@),
            assoc_wf(m0),
            forall|q: int| 0 <= q < i ==> m0[q].0 != k@,
        decreases n - i,
    {
        if mm[i].0 == k {
            proof {
                assert(m0[i as int].0 == k@);
                assert(assoc_has(m0, k@));
                let j = assoc_index(m0, k@);
                assert(0 <= j < m0.len() && m0[j].0 == k@);
                assert(j == i as int);
            }
            mm[i] = (k, e);
            proof {
                assert(gtk_events_view(mm@) =~= assoc_set(m0, k@, e@));
            }
            return mm;
        }
        i += 1;
    }
    proof {
        assert(!assoc_has(m0, k@));
    }
    mm.push((k, e));
    proof {
        assert(gtk_events_view(mm@) =~= assoc_set(m0, k@, e@));
    }
    mm
}

/// Append a composed-widget signal binding under `k`: bindings accumulate.
fn append_relm_event(m: Vec<(String, Vec<Event>)>, k: String, e: Event) -> (r: Vec<
    (String, Vec<Event>),
>)
    requires
        assoc_wf(relm_events_view(m@)),
    ensures
        relm_events_view(r@) == assoc_append(relm_events_view(m@), k@, e@),
        assoc_wf(relm_events_view(r@)),
{
    proof {
        lemma_assoc_append_wf(relm_events_view(m@), k@, e@);
    }
    let ghost m0 = relm_events_view(m@);
    let mut mm = m;
    let n = mm.len();
    let mut i: usize = 0;
    while i < n
        invariant
            i <= n,
            n == mm@.len(),
            relm_events_view(mm@) == m0,
            m0 == relm_events_view(m@),
            assoc_wf(m0),
            forall|q: int| 0 <= q < i ==> m0[q].0 != k@,
        decreases n - i,
    {
        if mm[i].0 == k {
            proof {
                assert(m0[i as int].0 == k@);
                assert(assoc_has(m0, k@));
                let j = assoc_index(m0, k@);
                assert(0 <= j < m0.len() && m0[j].0 == k@);
                assert(j == i as int);
            }
            let ghost morig = mm@;
            let (key, mut list) = mm.remove(i);
            let ghost list0 = list@;
            list.push(e);
            mm.insert(i, (key, list));
            proof {
                assert forall|q: int| 0 <= q < list@.len() implies events_view(list@)[q]
                    == events_view(list0).push(e@)[q] by {
                    if q < list0.len() {
                        assert(list@[q] == list0[q]);
                    } else {
                        assert(list@[q] == e);
                    }
                }
                assert(events_view(list@) =~= events_view(list0).push(e@));
                let jj = assoc_index(m0, k@);
                assert(0 <= jj < m0.len() && m0[jj].0 == k@);
                assert(jj == i as int);
                assert(mm@ == morig.remove(i as int).insert(i as int, (key, list)));
                assert forall|q: int| 0 <= q < mm@.len() implies relm_events_view(mm@)[q]
                    == assoc_append(m0, k@, e@)[q] by {
                    if q == i as int {
                        assert(mm@[q] == (key, list));
                        assert(key@ == k@);
                        assert(events_view(list0) == m0[q].1);
                    } else if q > i as int {
                        assert(mm@[q] == morig.remove(i as int)[q - 1]);
                        assert(mm@[q] == morig[q]);
                    } else {
                        assert(mm@[q] == morig[q]);
                    }
                }
                assert(relm_events_view(mm@) =~= assoc_append(m0, k@, e@));
            }
            return mm;
        }
        i += 1;
    }
    proof {
        assert(!assoc_has(m0, k@));
    }
    let mut list: Vec<Event> = Vec::new();
    list.push(e);
    mm.push((k, list));
    proof {
        assert(events_view(mm@.last().1@) =~= seq![e@]);
        assert(relm_events_view(mm@) =~= assoc_append(m0, k@, e@));
    }
    mm
}

// ---------------------------------------------------------------------------
// Leaf parsers.
// ---------------------------------------------------------------------------

/// One identifier at `pos`.
pub open spec fn sp_ident(toks: Seq<TokenV>, pos: int) -> Result<Seq<char>, ParseErrorV> {
    if 0 <= pos < toks.len() {
        match toks[pos] {
            TokenV::Ident(s) => Result::Ok(s),
            _ => Result::Err(ParseErrorV::ExpectedIdent(Option::Some(toks[pos]))),
        }
    } else {
        Result::Err(ParseErrorV::ExpectedIdent(Option::None))
    }
}

/// Read one identifier.
fn parse_ident(tokens: &Vec<Token>, pos: usize) -> (r: Result<String, ParseError>)
    ensures
        match r {
            Result::Ok(s) => sp_ident(toks_view(tokens@), pos as int) == Result::<
                Seq<char>,
                ParseErrorV,
            >::Ok(s@),
            Result::Err(e) => sp_ident(toks_view(tokens@), pos as int) == Result::<
                Seq<char>,
                ParseErrorV,
            >::Err(e@),
        },
{
    proof {
        lemma_toks_view(tokens@);
    }
    if pos < tokens.len() {
        match &tokens[pos] {
            Token::Ident(s) => Result::Ok(s.clone()),
            _ => Result::Err(ParseError::ExpectedIdent(found_at(tokens, pos))),
        }
    } else {
        Result::Err(ParseError::ExpectedIdent(Option::None))
    }
}

/// Whether the token is a top-level comma, the expression terminator.
fn is_comma(t: &Token) -> (r: bool)
    ensures
        r == (t@ == TokenV::Punct(Punct::Comma)),
{
    match t {
        Token::Punct(Punct::Comma) => true,
        _ => false,
    }
}

/// An opaque expression: the tokens from `pos` up to the next top-level
/// comma (nested groups are atomic), and the position of that comma or of
/// the end.
pub open spec fn sp_value(toks: Seq<TokenV>, pos: int) -> (Seq<TokenV>, int)
    decreases toks.len() - pos,
{
    if pos < 0 || pos >= toks.len() {
        (Seq::empty(), pos)
    } else if toks[pos] == TokenV::Punct(Punct::Comma) {
        (Seq::empty(), pos)
    } else {
        let (rest, p) = sp_value(toks, pos + 1);
        (seq![toks[pos]] + rest, p)
    }
}

/// The captured span stops at or before the end, no earlier than `pos`.
pub proof fn lemma_sp_value_pos(toks: Seq<TokenV>, pos: int)
    requires
        0 <= pos <= toks.len(),
    ensures
        pos <= sp_value(toks, pos).1 <= toks.len(),
    decreases toks.len() - pos,
{
    if pos < toks.len() && toks[pos] != TokenV::Punct(Punct::Comma) {
        lemma_sp_value_pos(toks, pos + 1);
    }
}

/// Capture one opaque expression.
fn parse_value(tokens: &Vec<Token>, pos: usize) -> (r: (Vec<Token>, usize))
    requires
        pos <= tokens.len(),
    ensures
        toks_view(r.0@) == sp_value(toks_view(tokens@), pos as int).0,
        r.1 as int == sp_value(toks_view(tokens@), pos as int).1,
        pos <= r.1 <= tokens.len(),
{
    let ghost tv = toks_view(tokens@);
    proof {
        lemma_toks_view(tokens@);
        lemma_sp_value_pos(tv, pos as int);
    }
    let mut out: Vec<Token> = Vec::new();
    let mut i: usize = pos;
    while i < tokens.len() && !is_comma(&tokens[i])
        invariant
            pos <= i <= tokens.len(),
            tv == toks_view(tokens@),
            tv.len() == tokens@.len(),
            forall|q: int| 0 <= q < tokens@.len() ==> tv[q] == #[trigger] tokens@[q]@,
            sp_value(tv, pos as int).0 == toks_view(out@) + sp_value(tv, i as int).0,
            sp_value(tv, pos as int).1 == sp_value(tv, i as int).1,
        decreases tokens.len() - i,
    {
        let t = tokens[i].clone();
        let ghost out_old = out@;
        out.push(t);
        proof {
            assert(out@ == out_old.push(t));
            lemma_toks_view_push(out_old, t);
            assert(toks_view(out@) == toks_view(out_old).push(tv[i as int]));
            assert(sp_value(tv, i as int).0 =~= seq![tv[i as int]] + sp_value(tv, i as int + 1).0);
            assert(toks_view(out_old) + sp_value(tv, i as int).0 =~= toks_view(out@) + sp_value(
                tv,
                i as int + 1,
            ).0);
        }
        i += 1;
    }
    proof {
        assert(sp_value(tv, i as int) == (Seq::<TokenV>::empty(), i as int));
        assert(toks_view(out@) + Seq::<TokenV>::empty() =~= toks_view(out@));
    }
    (out, i)
}

// ---------------------------------------------------------------------------
// Comma-separated lists.
// ---------------------------------------------------------------------------

/// Split the tokens from `pos` on at top-level commas into opaque expression
/// spans.  The list always has at least one entry: a trailing comma yields a
/// trailing empty span, and empty input yields one empty span.
pub open spec fn sp_comma_list(toks: Seq<TokenV>, pos: int) -> Seq<Seq<TokenV>>
    decreases toks.len() - pos,
{
    if pos < 0 || pos >= toks.len() {
        seq![Seq::empty()]
    } else if toks[pos] == TokenV::Punct(Punct::Comma) {
        seq![Seq::<TokenV>::empty()] + sp_comma_list(toks, pos + 1)
    } else {
        let rest = sp_comma_list(toks, pos + 1);
        seq![seq![toks[pos]] + rest[0]] + rest.subrange(1, rest.len() as int)
    }
}

/// The split always yields at least one span.
pub proof fn lemma_sp_comma_list_len(toks: Seq<TokenV>, pos: int)
    ensures
        sp_comma_list(toks, pos).len() >= 1,
    decreases toks.len() - pos,
{
    if 0 <= pos < toks.len() {
        lemma_sp_comma_list_len(toks, pos + 1);
    }
}

/// `x` prepended onto the first span of `l`.
pub open spec fn prepend_first(x: Seq<TokenV>, l: Seq<Seq<TokenV>>) -> Seq<Seq<TokenV>> {
    seq![x + l[0]] + l.subrange(1, l.len() as int)
}

/// Split a whole token sequence (a parenthesized group's contents) on
/// top-level commas.
fn parse_comma_list(tokens: &Vec<Token>) -> (r: Vec<Vec<Token>>)
    ensures
        spans_view(r@) == sp_comma_list(toks_view(tokens@), 0),
{
    let ghost tv = toks_view(tokens@);
    proof {
        lemma_toks_view(tokens@);
    }
    let mut out: Vec<Vec<Token>> = Vec::new();
    let mut cur: Vec<Token> = Vec::new();
    let mut i: usize = 0;
    while i < tokens.len()
        invariant
            i <= tokens.len(),
            tv == toks_view(tokens@),
            tv.len() == tokens@.len(),
            forall|q: int| 0 <= q < tokens@.len() ==> tv[q] == #[trigger] tokens@[q]@,
            sp_comma_list(tv, 0) == spans_view(out@) + prepend_first(
                toks_view(cur@),
                sp_comma_list(tv, i as int),
            ),
        decreases tokens.len() - i,
    {
        proof {
            lemma_sp_comma_list_len(tv, i as int + 1);
        }
        if is_comma(&tokens[i]) {
            let ghost out_old = out@;
            let ghost cur_old = toks_view(cur@);
            out.push(cur);
            cur = Vec::new();
            proof {
                lemma_spans_view_push(out_old, out@.last());
                assert(toks_view(out@.last()@) == cur_old);
                assert(spans_view(out@) == spans_view(out_old).push(cur_old));
                let rest = sp_comma_list(tv, i as int + 1);
                assert(sp_comma_list(tv, i as int) == seq![Seq::<TokenV>::empty()] + rest);
                assert(prepend_first(cur_old, sp_comma_list(tv, i as int)) =~= seq![cur_old] + (
                seq![Seq::<TokenV>::empty() + rest[0]] + rest.subrange(1, rest.len() as int)));
                assert(Seq::<TokenV>::empty() + rest[0] =~= rest[0]);
                assert(toks_view(cur@) =~= Seq::<TokenV>::empty());
                assert(spans_view(out_old) + prepend_first(cur_old, sp_comma_list(tv, i as int))
                    =~= spans_view(out@) + prepend_first(toks_view(cur@), rest));
            }
        } else {
            let t = tokens[i].clone();
            let ghost cur_old = cur@;
            cur.push(t);
            proof {
                lemma_toks_view_push(cur_old, t);
                let rest = sp_comma_list(tv, i as int + 1);
                assert(sp_comma_list(tv, i as int) == seq![seq![tv[i as int]] + rest[0]]
                    + rest.subrange(1, rest.len() as int));
                assert(toks_view(cur@) + rest[0] =~= toks_view(cur_old) + (seq![tv[i as int]]
                    + rest[0]));
                assert(prepend_first(toks_view(cur_old), sp_comma_list(tv, i as int))
                    =~= prepend_first(toks_view(cur@), rest));
            }
        }
        i += 1;
    }
    let ghost out_old = out@;
    let ghost cur_v = toks_view(cur@);
    out.push(cur);
    proof {
        lemma_spans_view_push(out_old, out@.last());
        assert(toks_view(out@.last()@) == cur_v);
        assert(sp_comma_list(tv, i as int) == seq![Seq::<TokenV>::empty()]);
        assert(cur_v + Seq::<TokenV>::empty() =~= cur_v);
        assert(prepend_first(cur_v, seq![Seq::<TokenV>::empty()]) =~= seq![cur_v]);
        assert(spans_view(out@) =~= spans_view(out_old) + seq![cur_v]);
    }
    out
}

// ---------------------------------------------------------------------------
// Event parameter lists.
// ---------------------------------------------------------------------------

/// The text of a punctuation mark.
pub open spec fn punct_chars(p: Punct) -> Seq<char> {
    match p {
        Punct::Colon => seq![':'],
        Punct::Comma => seq![','],
        Punct::ModSep => seq![':', ':'],
        Punct::FatArrow => seq!['=', '>'],
        Punct::At => seq!['@'],
        Punct::Equals => seq!['='],
        Punct::Pound => seq!['#'],
        Punct::Lt => seq!['<'],
        Punct::Gt => seq!['>'],
    }
}

/// The verbatim text of an atomic token; a string literal keeps its quotes.
/// Groups have no text (they cannot stand in a parameter list).
pub open spec fn sp_atom_text(t: TokenV) -> Seq<char> {
    match t {
        TokenV::Ident(s) => s,
        TokenV::LitStr(s) => seq!['"'] + s + seq!['"'],
        TokenV::Other(s) => s,
        TokenV::Punct(p) => punct_chars(p),
        TokenV::Group(_, _) => Seq::empty(),
    }
}

/// The bound parameter names: every non-comma atomic token's text, in order.
/// A nested group is malformed here.
pub open spec fn sp_ident_list(toks: Seq<TokenV>, pos: int) -> Result<Seq<Seq<char>>, ParseErrorV>
    decreases toks.len() - pos,
{
    if pos < 0 || pos >= toks.len() {
        Result::Ok(Seq::empty())
    } else {
        match toks[pos] {
            TokenV::Punct(Punct::Comma) => sp_ident_list(toks, pos + 1),
            TokenV::Group(_, _) => Result::Err(ParseErrorV::ExpectedAtom(toks[pos])),
            _ => match sp_ident_list(toks, pos + 1) {
                Result::Ok(rest) => Result::Ok(seq![sp_atom_text(toks[pos])] + rest),
                Result::Err(e) => Result::Err(e),
            },
        }
    }
}

/// The text of a punctuation mark.
fn punct_str(p: Punct) -> (r: &'static str)
    ensures
        r@ == punct_chars(p),
{
    proof {
        reveal_strlit(":");
        reveal_strlit(",");
        reveal_strlit("::");
        reveal_strlit("=>");
        reveal_strlit("@");
        reveal_strlit("=");
        reveal_strlit("#");
        reveal_strlit("<");
        reveal_strlit(">");
    }
    match p {
        Punct::Colon => ":",
        Punct::Comma => ",",
        Punct::ModSep => "::",
        Punct::FatArrow => "=>",
        Punct::At => "@",
        Punct::Equals => "=",
        Punct::Pound => "#",
        Punct::Lt => "<",
        Punct::Gt => ">",
    }
}

/// The verbatim text of an atomic token.
fn atom_text(t: &Token) -> (r: String)
    requires
        !(t@ matches TokenV::Group(_, _)),
    ensures
        r@ == sp_atom_text(t@),
{
    proof {
        reveal_strlit("\"");
    }
    match t {
        Token::Ident(s) => s.clone(),
        Token::Other(s) => s.clone(),
        Token::LitStr(s) => {
            let mut q = String::from_str("\"");
            q.append(s.as_str());
            q.append("\"");
            proof {
                assert("\""@ =~= seq!['"']);
                assert(q@ =~= seq!['"'] + s@ + seq!['"']);
            }
            q
        },
        Token::Punct(p) => String::from_str(punct_str(*p)),
        Token::Group(_, _) => {
            proof {
                assert(false);
            }
            String::new()
        },
    }
}

/// Read a comma-separated parameter list (a parenthesized group's contents).
fn parse_comma_ident_list(tokens: &Vec<Token>) -> (r: Result<Vec<String>, ParseError>)
    ensures
        match r {
            Result::Ok(ps) => sp_ident_list(toks_view(tokens@), 0) == Result::<
                Seq<Seq<char>>,
                ParseErrorV,
            >::Ok(strs_view(ps@)),
            Result::Err(e) => sp_ident_list(toks_view(tokens@), 0) == Result::<
                Seq<Seq<char>>,
                ParseErrorV,
            >::Err(e@),
        },
{
    let ghost tv = toks_view(tokens@);
    proof {
        lemma_toks_view(tokens@);
    }
    let mut out: Vec<String> = Vec::new();
    let mut i: usize = 0;
    while i < tokens.len()
        invariant
            i <= tokens.len(),
            tv == toks_view(tokens@),
            tv.len() == tokens@.len(),
            forall|q: int| 0 <= q < tokens@.len() ==> tv[q] == #[trigger] tokens@[q]@,
            sp_ident_list(tv, 0) == (match sp_ident_list(tv, i as int) {
                Result::Ok(rest) => Result::<Seq<Seq<char>>, ParseErrorV>::Ok(
                    strs_view(out@) + rest,
                ),
                Result::Err(e) => Result::<Seq<Seq<char>>, ParseErrorV>::Err(e),
            }),
        decreases tokens.len() - i,
    {
        let is_group = match &tokens[i] {
            Token::Group(_, _) => true,
            _ => false,
        };
        if is_group {
            let t = tokens[i].clone();
            return Result::Err(ParseError::ExpectedAtom(t));
        }
        if !is_comma(&tokens[i]) {
            let text = atom_text(&tokens[i]);
            let ghost out_old = out@;
            out.push(text);
            proof {
                lemma_strs_view_push(out_old, out@.last());
                if sp_ident_list(tv, i as int + 1) is Ok {
                    let rest = sp_ident_list(tv, i as int + 1)->Ok_0;
                    assert(strs_view(out_old) + (seq![sp_atom_text(tv[i as int])] + rest)
                        =~= strs_view(out@) + rest);
                }
            }
        }
        i += 1;
    }
    proof {
        assert(sp_ident_list(tv, i as int) == Result::<Seq<Seq<char>>, ParseErrorV>::Ok(
            Seq::empty(),
        ));
        assert(strs_view(out@) + Seq::<Seq<char>>::empty() =~= strs_view(out@));
    }
    Result::Ok(out)
}

// ---------------------------------------------------------------------------
// Child properties.
// ---------------------------------------------------------------------------

/// A flat sequence of `identifier : expr` pairs (comma separated, trailing
/// comma tolerated), merged into `acc` with the later write winning.  An
/// identifier without a following `:` is skipped; input ending right after an
/// identifier is malformed.
pub open spec fn sp_child_properties(
    toks: Seq<TokenV>,
    pos: int,
    acc: Seq<(Seq<char>, Seq<TokenV>)>,
) -> Result<Seq<(Seq<char>, Seq<TokenV>)>, ParseErrorV>
    decreases toks.len() - pos,
        via sp_child_properties_dec
{
    if !(0 <= pos < toks.len()) {
        Result::Ok(acc)
    } else {
        match toks[pos] {
            TokenV::Ident(name) => {
                let p1 = pos + 1;
                if p1 >= toks.len() {
                    Result::Err(ParseErrorV::UnexpectedEnd)
                } else if toks[p1] == TokenV::Punct(Punct::Colon) {
                    let (v, p) = sp_value(toks, p1 + 1);
                    let acc2 = assoc_set(acc, name, v);
                    let p2 = if p < toks.len() && toks[p] == TokenV::Punct(Punct::Comma) {
                        p + 1
                    } else {
                        p
                    };
                    sp_child_properties(toks, p2, acc2)
                } else {
                    let p2 = if toks[p1] == TokenV::Punct(Punct::Comma) {
                        p1 + 1
                    } else {
                        p1
                    };
                    sp_child_properties(toks, p2, acc)
                }
            },
            _ => Result::Err(ParseErrorV::ExpectedIdent(Option::Some(toks[pos]))),
        }
    }
}

#[via_fn]
proof fn sp_child_properties_dec(toks: Seq<TokenV>, pos: int, acc: Seq<(Seq<char>, Seq<TokenV>)>) {
    if 0 <= pos && pos + 2 <= toks.len() {
        lemma_sp_value_pos(toks, pos + 2);
    }
}

/// Read the contents of a child-property brace group and merge its pairs
/// into `acc`.
fn parse_child_properties(
    tokens: &Vec<Token>,
    acc: Vec<(String, Vec<Token>)>,
) -> (r: Result<Vec<(String, Vec<Token>)>, ParseError>)
    requires
        assoc_wf(props_view(acc@)),
    ensures
        match r {
            Result::Ok(ps) => sp_child_properties(toks_view(tokens@), 0, props_view(acc@))
                == Result::<Seq<(Seq<char>, Seq<TokenV>)>, ParseErrorV>::Ok(props_view(ps@))
                && assoc_wf(props_view(ps@)),
            Result::Err(e) => sp_child_properties(toks_view(tokens@), 0, props_view(acc@))
                == Result::<Seq<(Seq<char>, Seq<TokenV>)>, ParseErrorV>::Err(e@),
        },
{
    let ghost tv = toks_view(tokens@);
    let ghost acc0 = props_view(acc@);
    proof {
        lemma_toks_view(tokens@);
    }
    let mut out = acc;
    let mut i: usize = 0;
    while i < tokens.len()
        invariant
            i <= tokens.len(),
            tv == toks_view(tokens@),
            tv.len() == tokens@.len(),
            forall|q: int| 0 <= q < tokens@.len() ==> tv[q] == #[trigger] tokens@[q]@,
            assoc_wf(props_view(out@)),
            acc0 == props_view(acc@),
            sp_child_properties(tv, 0, acc0) == sp_child_properties(
                tv,
                i as int,
                props_view(out@),
            ),
        decreases tokens.len() - i,
    {
        let ghost i0 = i as int;
        let ghost out0 = props_view(out@);
        proof {
            assert(tv[i0] == tokens@[i0]@);
        }
        let name = match &tokens[i] {
            Token::Ident(s) => s.clone(),
            _ => {
                return Result::Err(ParseError::ExpectedIdent(found_at(tokens, i)));
            },
        };
        let p1 = i + 1;
        if p1 >= tokens.len() {
            return Result::Err(ParseError::UnexpectedEnd);
        }
        proof {
            assert(tv[p1 as int] == tokens@[p1 as int]@);
        }
        if is_punct(&tokens[p1], Punct::Colon) {
            let (v, p) = parse_value(tokens, p1 + 1);
            let ghost namev = name@;
            let ghost vv = toks_view(v@);
            out = insert_span(out, name, v);
            if p < tokens.len() && is_comma(&tokens[p]) {
                i = p + 1;
            } else {
                i = p;
            }
            proof {
                assert(tv[i0] == tokens@[i0]@);
                assert(tv[i0] matches TokenV::Ident(_));
                assert(tv[i0]->Ident_0 == namev);
                assert(vv == sp_value(tv, i0 + 2).0);
                assert(props_view(out@) == assoc_set(out0, namev, vv));
                assert(i as int == (if sp_value(tv, i0 + 2).1 < tv.len() && tv[sp_value(
                    tv,
                    i0 + 2,
                ).1] == TokenV::Punct(Punct::Comma) {
                    sp_value(tv, i0 + 2).1 + 1
                } else {
                    sp_value(tv, i0 + 2).1
                }));
                assert(sp_child_properties(tv, i0, out0) == sp_child_properties(
                    tv,
                    i as int,
                    props_view(out@),
                ));
            }
        } else {
            if is_comma(&tokens[p1]) {
                i = p1 + 1;
            } else {
                i = p1;
            }
            proof {
                assert(sp_child_properties(tv, i0, out0) == sp_child_properties(
                    tv,
                    i as int,
                    props_view(out@),
                ));
            }
        }
    }
    proof {
        assert(sp_child_properties(tv, i as int, props_view(out@)) == Result::<
            Seq<(Seq<char>, Seq<TokenV>)>,
            ParseErrorV,
        >::Ok(props_view(out@)));
    }
    Result::Ok(out)
}

// ---------------------------------------------------------------------------
// Attributes.
// ---------------------------------------------------------------------------

/// The attributes read so far: name and optional string value, in source
/// order (a later occurrence of a name shadows an earlier one at lookup).
pub open spec fn attrs_view(s: Seq<(String, Option<String>)>) -> Seq<
    (Seq<char>, Option<Seq<char>>),
> {
    Seq::new(s.len(), |i: int| (s[i].0@, opt_str_view(s[i].1)))
}

/// Consume every leading attribute marker `#[ ident (= "value")? ]`.  A `#`
/// not followed by a bracket group is consumed and ignored; a bracket group
/// whose first token is not an identifier is malformed.
pub open spec fn sp_attributes(toks: Seq<TokenV>, pos: int) -> Result<
    (Seq<(Seq<char>, Option<Seq<char>>)>, int),
    ParseErrorV,
>
    decreases toks.len() - pos,
{
    if !(0 <= pos < toks.len()) || toks[pos] != TokenV::Punct(Punct::Pound) {
        Result::Ok((Seq::empty(), pos))
    } else {
        let p1 = pos + 1;
        if p1 < toks.len() && (toks[p1] matches TokenV::Group(Delim::Bracket, _)) {
            let tts = toks[p1]->Group_1;
            if tts.len() >= 1 && (tts[0] matches TokenV::Ident(_)) {
                let name = tts[0]->Ident_0;
                let value = if tts.len() >= 3 && tts[1] == TokenV::Punct(Punct::Equals) && (
                tts[2] matches TokenV::LitStr(_)) {
                    Option::Some(tts[2]->LitStr_0)
                } else {
                    Option::None
                };
                match sp_attributes(toks, p1 + 1) {
                    Result::Ok((rest, p)) => Result::Ok((seq![(name, value)] + rest, p)),
                    Result::Err(e) => Result::Err(e),
                }
            } else {
                Result::Err(
                    ParseErrorV::ExpectedAttributeIdent(
                        if tts.len() >= 1 {
                            Option::Some(tts[0])
                        } else {
                            Option::None
                        },
                    ),
                )
            }
        } else {
            sp_attributes(toks, p1)
        }
    }
}

/// The attribute step never moves backwards nor past the end.
pub proof fn lemma_sp_attributes_pos(toks: Seq<TokenV>, pos: int)
    requires
        0 <= pos <= toks.len(),
    ensures
        sp_attributes(toks, pos) matches Result::Ok((a, p)) ==> pos <= p <= toks.len(),
    decreases toks.len() - pos,
{
    if 0 <= pos < toks.len() && toks[pos] == TokenV::Punct(Punct::Pound) {
        lemma_sp_attributes_pos(toks, pos + 1);
        if pos + 1 < toks.len() {
            lemma_sp_attributes_pos(toks, pos + 2);
        }
    }
}

/// Whether the token is the given punctuation mark.
fn is_punct(t: &Token, p: Punct) -> (r: bool)
    ensures
        r == (t@ == TokenV::Punct(p)),
{
    match t {
        Token::Punct(q) => *q == p,
        _ => false,
    }
}

/// Read the leading attribute markers.
fn parse_attributes(tokens: &Vec<Token>, pos: usize) -> (r: Result<
    (Vec<(String, Option<String>)>, usize),
    ParseError,
>)
    requires
        pos <= tokens.len(),
    ensures
        match r {
            Result::Ok((attrs, p)) => sp_attributes(toks_view(tokens@), pos as int) == Result::<
                (Seq<(Seq<char>, Option<Seq<char>>)>, int),
                ParseErrorV,
            >::Ok((attrs_view(attrs@), p as int)) && pos <= p <= tokens.len(),
            Result::Err(e) => sp_attributes(toks_view(tokens@), pos as int) == Result::<
                (Seq<(Seq<char>, Option<Seq<char>>)>, int),
                ParseErrorV,
            >::Err(e@),
        },
{
    let ghost tv = toks_view(tokens@);
    proof {
        lemma_toks_view(tokens@);
        lemma_sp_attributes_pos(tv, pos as int);
    }
    let mut out: Vec<(String, Option<String>)> = Vec::new();
    let mut i: usize = pos;
    while i < tokens.len() && is_punct(&tokens[i], Punct::Pound)
        invariant
            pos <= i <= tokens.len(),
            tv == toks_view(tokens@),
            tv.len() == tokens@.len(),
            forall|q: int| 0 <= q < tokens@.len() ==> tv[q] == #[trigger] tokens@[q]@,
            sp_attributes(tv, pos as int) == (match sp_attributes(tv, i as int) {
                Result::Ok((rest, p)) => Result::<
                    (Seq<(Seq<char>, Option<Seq<char>>)>, int),
                    ParseErrorV,
                >::Ok((attrs_view(out@) + rest, p)),
                Result::Err(e) => Result::<
                    (Seq<(Seq<char>, Option<Seq<char>>)>, int),
                    ParseErrorV,
                >::Err(e),
            }),
        decreases tokens.len() - i,
    {
        proof {
            assert(tv[i as int] == tokens@[i as int]@);
        }
        let p1 = i + 1;
        proof {
            if (p1 as int) < tokens@.len() {
                assert(tv[p1 as int] == tokens@[p1 as int]@);
            }
        }
        let group_ok = p1 < tokens.len() && (match &tokens[p1] {
            Token::Group(Delim::Bracket, _) => true,
            _ => false,
        });
        if group_ok {
            let (name, value) = match &tokens[p1] {
                Token::Group(Delim::Bracket, tts) => {
                    if tts.len() >= 1 {
                        let name = match &tts[0] {
                            Token::Ident(s) => s.clone(),
                            _ => {
                                proof {
                                    lemma_toks_view(tts@);
                                }
                                let t = tts[0].clone();
                                return Result::Err(
                                    ParseError::ExpectedAttributeIdent(Option::Some(t)),
                                );
                            },
                        };
                        proof {
                            lemma_toks_view(tts@);
                        }
                        let has_value = tts.len() >= 3 && is_punct(&tts[1], Punct::Equals)
                            && (match &tts[2] {
                            Token::LitStr(_) => true,
                            _ => false,
                        });
                        let value = if has_value {
                            match &tts[2] {
                                Token::LitStr(s) => Option::Some(s.clone()),
                                _ => Option::None,
                            }
                        } else {
                            Option::None
                        };
                        (name, value)
                    } else {
                        proof {
                            lemma_toks_view(tts@);
                        }
                        return Result::Err(ParseError::ExpectedAttributeIdent(Option::None));
                    }
                },
                _ => {
                    proof {
                        assert(false);
                    }
                    (String::new(), Option::None)
                },
            };
            let ghost out_old = out@;
            let ghost namev = name@;
            let ghost valuev = opt_str_view(value);
            out.push((name, value));
            proof {
                assert forall|q: int| 0 <= q < out@.len() implies attrs_view(out@)[q] == attrs_view(
                    out_old,
                ).push((namev, valuev))[q] by {
                    if q < out_old.len() {
                        assert(out@[q] == out_old[q]);
                    } else {
                        assert(out@[q] == (out@.last().0, out@.last().1));
                    }
                }
                assert(attrs_view(out@) =~= attrs_view(out_old).push((namev, valuev)));
                if sp_attributes(tv, i as int + 2) is Ok {
                    let rest = sp_attributes(tv, i as int + 2)->Ok_0.0;
                    assert(attrs_view(out_old) + (seq![(namev, valuev)] + rest) =~= attrs_view(
                        out@,
                    ) + rest);
                }
            }
            i = p1 + 1;
        } else {
            i = p1;
        }
    }
    proof {
        assert(sp_attributes(tv, i as int) == Result::<
            (Seq<(Seq<char>, Option<Seq<char>>)>, int),
            ParseErrorV,
        >::Ok((Seq::empty(), i as int)));
        assert(attrs_view(out@) + Seq::<(Seq<char>, Option<Seq<char>>)>::empty() =~= attrs_view(
            out@,
        ));
    }
    Result::Ok((out, i))
}

/// The value of the last attribute written under `key`, if any.
pub open spec fn attr_last(
    attrs: Seq<(Seq<char>, Option<Seq<char>>)>,
    key: Seq<char>,
) -> Option<Option<Seq<char>>>
    decreases attrs.len(),
{
    if attrs.len() == 0 {
        Option::None
    } else if attrs.last().0 == key {
        Option::Some(attrs.last().1)
    } else {
        attr_last(attrs.drop_last(), key)
    }
}

/// Look up the last attribute written under `key`.
fn attr_lookup(attrs: &Vec<(String, Option<String>)>, key: &String) -> (r: Option<Option<String>>)
    ensures
        (match r {
            Option::Some(v) => attr_last(attrs_view(attrs@), key@) == Option::Some(
                opt_str_view(v),
            ),
            Option::None => attr_last(attrs_view(attrs@), key@) is None,
        }),
{
    let ghost av = attrs_view(attrs@);
    proof {
        assert(av.take(attrs@.len() as int) =~= av);
    }
    let mut i: usize = attrs.len();
    while i > 0
        invariant
            i <= attrs.len(),
            av == attrs_view(attrs@),
            av.len() == attrs@.len(),
            attr_last(av, key@) == attr_last(av.take(i as int), key@),
        decreases i,
    {
        i = i - 1;
        if attrs[i].0 == *key {
            let value = match &attrs[i].1 {
                Option::Some(s) => Option::Some(s.clone()),
                Option::None => Option::None,
            };
            proof {
                assert(av.take(i as int + 1).last() == av[i as int]);
                assert(av[i as int].0 == key@);
            }
            return Option::Some(value);
        }
        proof {
            assert(av.take(i as int + 1).last() == av[i as int]);
            assert(av.take(i as int + 1).drop_last() =~= av.take(i as int));
        }
    }
    proof {
        assert(av.take(0) =~= Seq::<(Seq<char>, Option<Seq<char>>)>::empty());
    }
    Option::None
}

// ---------------------------------------------------------------------------
// Qualified names.
// ---------------------------------------------------------------------------

/// What the previous scanned token was, for the path grammar.
#[derive(Clone, Copy, PartialEq, Eq, Structural, Debug)]
pub enum PrevTok {
    AtStart,
    AfterIdent,
    AfterSep,
    AfterLt,
    AfterGt,
    AfterComma,
}

/// Whether the scan stops at this token: anything outside the path alphabet,
/// or a comma at angle-bracket level zero.
pub open spec fn scan_break(t: TokenV, level: int) -> bool {
    match t {
        TokenV::Ident(_) => false,
        TokenV::Punct(Punct::Lt) => false,
        TokenV::Punct(Punct::Gt) => false,
        TokenV::Punct(Punct::ModSep) => false,
        TokenV::Punct(Punct::Comma) => level == 0,
        _ => true,
    }
}

/// Whether the token may follow `prev` in a qualified path with the given
/// angle-bracket level.  This is the path grammar: segments are identifiers
/// separated by `::`, optionally followed by a balanced angle-bracket
/// argument list whose elements are again paths.
pub open spec fn step_ok(prev: PrevTok, t: TokenV, level: int) -> bool {
    match t {
        TokenV::Ident(_) => prev == PrevTok::AtStart || prev == PrevTok::AfterSep || prev
            == PrevTok::AfterLt || prev == PrevTok::AfterComma,
        TokenV::Punct(Punct::ModSep) => prev == PrevTok::AfterIdent || prev == PrevTok::AfterGt,
        TokenV::Punct(Punct::Lt) => prev == PrevTok::AfterIdent || prev == PrevTok::AfterSep,
        TokenV::Punct(Punct::Gt) => level >= 1 && (prev == PrevTok::AfterIdent || prev
            == PrevTok::AfterGt),
        TokenV::Punct(Punct::Comma) => level >= 1 && (prev == PrevTok::AfterIdent || prev
            == PrevTok::AfterGt),
        _ => false,
    }
}

/// The scan state after this token.
pub open spec fn step_prev(t: TokenV) -> PrevTok {
    match t {
        TokenV::Ident(_) => PrevTok::AfterIdent,
        TokenV::Punct(Punct::ModSep) => PrevTok::AfterSep,
        TokenV::Punct(Punct::Lt) => PrevTok::AfterLt,
        TokenV::Punct(Punct::Gt) => PrevTok::AfterGt,
        TokenV::Punct(Punct::Comma) => PrevTok::AfterComma,
        _ => PrevTok::AtStart,
    }
}

/// The angle-bracket level after this token.
pub open spec fn step_level(t: TokenV, level: int) -> int {
    match t {
        TokenV::Punct(Punct::Lt) => level + 1,
        TokenV::Punct(Punct::Gt) => level - 1,
        _ => level,
    }
}

/// Scan the longest prefix of path-alphabet tokens from `pos`, tracking the
/// grammar state: returns the stop position, the final level, the final
/// previous-token state, whether every step obeyed the grammar, and the
/// top-level segment identifiers in order.
pub open spec fn sp_scan(
    toks: Seq<TokenV>,
    pos: int,
    level: int,
    prev: PrevTok,
    ok: bool,
    segs: Seq<Seq<char>>,
) -> (int, int, PrevTok, bool, Seq<Seq<char>>)
    decreases toks.len() - pos,
{
    if !(0 <= pos < toks.len()) || scan_break(toks[pos], level) {
        (pos, level, prev, ok, segs)
    } else {
        let ok2 = ok && step_ok(prev, toks[pos], level);
        let segs2 = if level == 0 && (toks[pos] matches TokenV::Ident(_)) {
            segs.push(toks[pos]->Ident_0)
        } else {
            segs
        };
        sp_scan(toks, pos + 1, step_level(toks[pos], level), step_prev(toks[pos]), ok2, segs2)
    }
}

/// The scan stops between `pos` and the end; if it did not move, the
/// segments are unchanged.
pub proof fn lemma_sp_scan_pos(
    toks: Seq<TokenV>,
    pos: int,
    level: int,
    prev: PrevTok,
    ok: bool,
    segs: Seq<Seq<char>>,
)
    requires
        0 <= pos <= toks.len(),
    ensures
        pos <= sp_scan(toks, pos, level, prev, ok, segs).0 <= toks.len(),
        sp_scan(toks, pos, level, prev, ok, segs).0 == pos ==> sp_scan(
            toks,
            pos,
            level,
            prev,
            ok,
            segs,
        ).4 == segs,
    decreases toks.len() - pos,
{
    if 0 <= pos < toks.len() && !scan_break(toks[pos], level) {
        let ok2 = ok && step_ok(prev, toks[pos], level);
        let segs2 = if level == 0 && (toks[pos] matches TokenV::Ident(_)) {
            segs.push(toks[pos]->Ident_0)
        } else {
            segs
        };
        lemma_sp_scan_pos(toks, pos + 1, step_level(toks[pos], level), step_prev(toks[pos]), ok2, segs2);
    }
}

/// Whether the name starts with an ASCII lowercase letter.
pub open spec fn lower_start(s: Seq<char>) -> bool {
    s.len() > 0 && 'a' <= s[0] && s[0] <= 'z'
}

/// A qualified name read from `pos`: the scan must obey the path grammar,
/// close its angle brackets, end after an identifier or `>`, yield at least
/// one segment whose last member is not lowercase, and stop at a group or a
/// comma.  Yields the path and the stop position, or nothing.
pub open spec fn sp_try_name(toks: Seq<TokenV>, pos: int) -> Option<(WidgetPathV, int)> {
    let (end, level, prev, ok, segs) = sp_scan(
        toks,
        pos,
        0,
        PrevTok::AtStart,
        true,
        Seq::empty(),
    );
    if end < toks.len() && ((toks[end] matches TokenV::Group(_, _)) || toks[end] == TokenV::Punct(
        Punct::Comma,
    )) && ok && level == 0 && (prev == PrevTok::AfterIdent || prev == PrevTok::AfterGt)
        && segs.len() >= 1 && !lower_start(segs.last()) {
        Option::Some(
            (WidgetPathV { segments: segs, span: toks.subrange(pos, end) }, end),
        )
    } else {
        Option::None
    }
}

/// A successful scan moved past at least one token.
pub proof fn lemma_sp_try_name_pos(toks: Seq<TokenV>, pos: int)
    requires
        0 <= pos <= toks.len(),
    ensures
        sp_try_name(toks, pos) matches Option::Some((path, end)) ==> pos < end <= toks.len()
            && path.segments.len() >= 1,
{
    lemma_sp_scan_pos(toks, pos, 0, PrevTok::AtStart, true, Seq::empty());
}

/// Whether the scan stops at this token.
fn scan_break_at(t: &Token, level_is_zero: bool) -> (r: bool)
    ensures
        level_is_zero ==> r == scan_break(t@, 0),
        !level_is_zero ==> r == scan_break(t@, 1),
{
    match t {
        Token::Ident(_) => false,
        Token::Punct(Punct::Lt) => false,
        Token::Punct(Punct::Gt) => false,
        Token::Punct(Punct::ModSep) => false,
        Token::Punct(Punct::Comma) => level_is_zero,
        _ => true,
    }
}

/// Whether the string starts with an ASCII lowercase letter.
fn is_lower_start(s: &String) -> (r: bool)
    ensures
        r == lower_start(s@),
{
    let n = s.as_str().unicode_len();
    if n == 0 {
        false
    } else {
        let c = s.as_str().get_char(0);
        'a' <= c && c <= 'z'
    }
}

/// Try to read a qualified name at `pos`.  Returns the path (segments and
/// verbatim span) and the position of the token after it, or nothing if no
/// well-formed, capitalized qualified name followed by a group or comma
/// starts here.
fn try_parse_name(tokens: &Vec<Token>, pos: usize) -> (r: Option<(WidgetPath, usize)>)
    requires
        pos <= tokens.len(),
    ensures
        match r {
            Option::Some((path, end)) => sp_try_name(toks_view(tokens@), pos as int)
                == Option::Some((path@, end as int)) && pos < end <= tokens.len()
                && path.segments@.len() >= 1,
            Option::None => sp_try_name(toks_view(tokens@), pos as int) is None,
        },
{
    let ghost tv = toks_view(tokens@);
    proof {
        lemma_toks_view(tokens@);
        lemma_sp_try_name_pos(tv, pos as int);
    }
    let mut level: i128 = 0;
    let mut prev = PrevTok::AtStart;
    let mut ok = true;
    let mut segs: Vec<String> = Vec::new();
    let mut span: Vec<Token> = Vec::new();
    let mut i: usize = pos;
    proof {
        assert(tv.subrange(pos as int, pos as int) =~= Seq::<TokenV>::empty());
        assert(toks_view(span@) =~= Seq::<TokenV>::empty());
        assert(strs_view(segs@) =~= Seq::<Seq<char>>::empty());
    }
    while i < tokens.len() && !scan_break_at(&tokens[i], level == 0)
        invariant
            pos <= i <= tokens.len(),
            tv == toks_view(tokens@),
            tv.len() == tokens@.len(),
            forall|q: int| 0 <= q < tokens@.len() ==> tv[q] == #[trigger] tokens@[q]@,
            -(i as int - pos as int) <= level as int <= i as int - pos as int,
            toks_view(span@) == tv.subrange(pos as int, i as int),
            sp_scan(tv, pos as int, 0, PrevTok::AtStart, true, Seq::empty()) == sp_scan(
                tv,
                i as int,
                level as int,
                prev,
                ok,
                strs_view(segs@),
            ),
        decreases tokens.len() - i,
    {
        proof {
            assert(tv[i as int] == tokens@[i as int]@);
        }
        let ghost i0 = i as int;
        let ghost level0 = level as int;
        let ghost prev0 = prev;
        let ghost ok0 = ok;
        let ghost segs0 = strs_view(segs@);
        let step_fine = match &tokens[i] {
            Token::Ident(_) => prev == PrevTok::AtStart || prev == PrevTok::AfterSep || prev
                == PrevTok::AfterLt || prev == PrevTok::AfterComma,
            Token::Punct(Punct::ModSep) => prev == PrevTok::AfterIdent || prev
                == PrevTok::AfterGt,
            Token::Punct(Punct::Lt) => prev == PrevTok::AfterIdent || prev == PrevTok::AfterSep,
            Token::Punct(Punct::Gt) => level >= 1 && (prev == PrevTok::AfterIdent || prev
                == PrevTok::AfterGt),
            Token::Punct(Punct::Comma) => level >= 1 && (prev == PrevTok::AfterIdent || prev
                == PrevTok::AfterGt),
            _ => false,
        };
        ok = ok && step_fine;
        match &tokens[i] {
            Token::Ident(s) => {
                if level == 0 {
                    let ghost segs_old = segs@;
                    segs.push(s.clone());
                    proof {
                        lemma_strs_view_push(segs_old, segs@.last());
                    }
                }
            },
            _ => {},
        }
        level = match &tokens[i] {
            Token::Punct(Punct::Lt) => level + 1,
            Token::Punct(Punct::Gt) => level - 1,
            _ => level,
        };
        prev = match &tokens[i] {
            Token::Ident(_) => PrevTok::AfterIdent,
            Token::Punct(Punct::ModSep) => PrevTok::AfterSep,
            Token::Punct(Punct::Lt) => PrevTok::AfterLt,
            Token::Punct(Punct::Gt) => PrevTok::AfterGt,
            Token::Punct(Punct::Comma) => PrevTok::AfterComma,
            _ => PrevTok::AtStart,
        };
        let ghost span_old = span@;
        let t = tokens[i].clone();
        span.push(t);
        i += 1;
        proof {
            lemma_toks_view_push(span_old, span@.last());
            assert(tv.subrange(pos as int, i as int) =~= tv.subrange(pos as int, i0).push(
                tv[i0],
            ));
            assert(!scan_break(tv[i0], level0));
            assert(ok == (ok0 && step_ok(prev0, tv[i0], level0)));
            assert(level as int == step_level(tv[i0], level0));
            assert(prev == step_prev(tv[i0]));
            assert(strs_view(segs@) == (if level0 == 0 && (tv[i0] matches TokenV::Ident(_)) {
                segs0.push(tv[i0]->Ident_0)
            } else {
                segs0
            }));
            assert(sp_scan(tv, i0, level0, prev0, ok0, segs0) == sp_scan(
                tv,
                i as int,
                level as int,
                prev,
                ok,
                strs_view(segs@),
            ));
        }
    }
    proof {
        assert(sp_scan(tv, i as int, level as int, prev, ok, strs_view(segs@)) == (
            i as int,
            level as int,
            prev,
            ok,
            strs_view(segs@),
        ));
    }
    if i >= tokens.len() {
        return Option::None;
    }
    proof {
        assert(tv[i as int] == tokens@[i as int]@);
    }
    let stop_ok = match &tokens[i] {
        Token::Group(_, _) => true,
        Token::Punct(Punct::Comma) => true,
        _ => false,
    };
    if !(stop_ok && ok && level == 0 && (prev == PrevTok::AfterIdent || prev == PrevTok::AfterGt)
        && segs.len() >= 1) {
        return Option::None;
    }
    if is_lower_start(&segs[segs.len() - 1]) {
        proof {
            assert(strs_view(segs@).last() == segs@.last()@);
        }
        return Option::None;
    }
    proof {
        assert(strs_view(segs@).last() == segs@.last()@);
    }
    let path = WidgetPath { segments: segs, span };
    Option::Some((path, i))
}

// ---------------------------------------------------------------------------
// Events.
// ---------------------------------------------------------------------------

/// The effect written after `=>`: `return expr` sends and returns one
/// expression; a parenthesized pair sends the first and returns the second;
/// anything else sends one expression and returns nothing.
pub open spec fn sp_event_value(toks: Seq<TokenV>, pos: int) -> Result<
    (EventValueReturnV, int),
    ParseErrorV,
> {
    if !(0 <= pos < toks.len()) {
        Result::Err(ParseErrorV::UnexpectedEnd)
    } else if toks[pos] == TokenV::Ident("return"@) {
        let (v, p) = sp_value(toks, pos + 1);
        Result::Ok((EventValueReturnV::CallReturn(v), p))
    } else if toks[pos] matches TokenV::Group(Delim::Paren, _) {
        let tts = toks[pos]->Group_1;
        let (v1, q) = sp_value(tts, 0);
        if q < tts.len() && tts[q] == TokenV::Punct(Punct::Comma) {
            let (v2, _q2) = sp_value(tts, q + 1);
            Result::Ok((EventValueReturnV::Return(v1, v2), pos + 1))
        } else {
            Result::Err(ParseErrorV::ExpectedComma(sp_found(tts, q)))
        }
    } else {
        let (v, p) = sp_value(toks, pos);
        Result::Ok((EventValueReturnV::WithoutReturn(v), p))
    }
}

/// A parsed effect ends between `pos` and the end of the tokens.
pub proof fn lemma_sp_event_value_pos(toks: Seq<TokenV>, pos: int)
    requires
        0 <= pos <= toks.len(),
    ensures
        sp_event_value(toks, pos) matches Result::Ok((ev, p)) ==> pos <= p <= toks.len(),
{
    if 0 <= pos < toks.len() {
        lemma_sp_value_pos(toks, pos + 1);
        lemma_sp_value_pos(toks, pos);
    }
}

/// Read one effect.
fn parse_event_value(tokens: &Vec<Token>, pos: usize) -> (r: Result<
    (EventValueReturn, usize),
    ParseError,
>)
    requires
        pos <= tokens.len(),
    ensures
        match r {
            Result::Ok((ev, p)) => sp_event_value(toks_view(tokens@), pos as int) == Result::<
                (EventValueReturnV, int),
                ParseErrorV,
            >::Ok((ev@, p as int)) && pos <= p <= tokens.len(),
            Result::Err(e) => sp_event_value(toks_view(tokens@), pos as int) == Result::<
                (EventValueReturnV, int),
                ParseErrorV,
            >::Err(e@),
        },
{
    let ghost tv = toks_view(tokens@);
    proof {
        lemma_toks_view(tokens@);
        lemma_sp_event_value_pos(tv, pos as int);
    }
    if pos >= tokens.len() {
        return Result::Err(ParseError::UnexpectedEnd);
    }
    proof {
        assert(tv[pos as int] == tokens@[pos as int]@);
    }
    let is_return = match &tokens[pos] {
        Token::Ident(s) => *s == String::from_str("return"),
        _ => false,
    };
    if is_return {
        let (v, p) = parse_value(tokens, pos + 1);
        return Result::Ok((EventValueReturn::CallReturn(v), p));
    }
    match &tokens[pos] {
        Token::Group(Delim::Paren, tts) => {
            proof {
                lemma_toks_view(tts@);
            }
            let (v1, q) = parse_value(tts, 0);
            if q < tts.len() && is_comma(&tts[q]) {
                let (v2, _q2) = parse_value(tts, q + 1);
                Result::Ok((EventValueReturn::Return(v1, v2), pos + 1))
            } else {
                Result::Err(ParseError::ExpectedComma(found_at(tts, q)))
            }
        },
        _ => {
            let (v, p) = parse_value(tokens, pos);
            Result::Ok((EventValueReturn::WithoutReturn(v), p))
        },
    }
}

/// One event binding, after its signal name: an optional parenthesized
/// parameter list (otherwise the context's default parameters), an optional
/// `with model` alias, the required `=>`, and the effect, addressed to the
/// current widget or — written `target@...` — to a foreign one.
pub open spec fn sp_event(toks: Seq<TokenV>, pos: int, one_param: bool) -> Result<
    (EventV, int),
    ParseErrorV,
> {
    let defaults: Seq<Seq<char>> = if one_param {
        seq![seq!['_']]
    } else {
        Seq::empty()
    };
    let params_step: Result<(Seq<Seq<char>>, int), ParseErrorV> = if 0 <= pos < toks.len() && (
    toks[pos] matches TokenV::Group(Delim::Paren, _)) {
        match sp_ident_list(toks[pos]->Group_1, 0) {
            Result::Ok(ps) => Result::Ok((ps, pos + 1)),
            Result::Err(e) => Result::Err(e),
        }
    } else {
        Result::Ok((defaults, pos))
    };
    match params_step {
        Result::Err(e) => Result::Err(e),
        Result::Ok((params, p1)) => {
            let with_step: Result<(Option<Seq<char>>, int), ParseErrorV> = if p1 < toks.len()
                && toks[p1] == TokenV::Ident("with"@) {
                if p1 + 1 < toks.len() && (toks[p1 + 1] matches TokenV::Ident(_)) {
                    Result::Ok((Option::Some(toks[p1 + 1]->Ident_0), p1 + 2))
                } else {
                    Result::Err(ParseErrorV::ExpectedIdentAfterWith(sp_found(toks, p1 + 1)))
                }
            } else {
                Result::Ok((Option::None, p1))
            };
            match with_step {
                Result::Err(e) => Result::Err(e),
                Result::Ok((model_ident, p2)) => {
                    if !(p2 < toks.len() && toks[p2] == TokenV::Punct(Punct::FatArrow)) {
                        Result::Err(ParseErrorV::ExpectedFatArrow(sp_found(toks, p2)))
                    } else {
                        let p3 = p2 + 1;
                        if p3 + 1 < toks.len() && toks[p3 + 1] == TokenV::Punct(Punct::At) {
                            match sp_event_value(toks, p3 + 2) {
                                Result::Err(e) => Result::Err(e),
                                Result::Ok((ev, p4)) => match sp_ident(toks, p3) {
                                    Result::Err(e) => Result::Err(e),
                                    Result::Ok(target) => Result::Ok(
                                        (
                                            EventV {
                                                model_ident,
                                                params,
                                                value: EventValueV::ForeignWidget(target, ev),
                                            },
                                            p4,
                                        ),
                                    ),
                                },
                            }
                        } else {
                            match sp_event_value(toks, p3) {
                                Result::Err(e) => Result::Err(e),
                                Result::Ok((ev, p4)) => Result::Ok(
                                    (
                                        EventV {
                                            model_ident,
                                            params,
                                            value: EventValueV::CurrentWidget(ev),
                                        },
                                        p4,
                                    ),
                                ),
                            }
                        }
                    }
                },
            }
        },
    }
}

/// A parsed event ends between `pos` and the end of the tokens.
pub proof fn lemma_sp_event_pos(toks: Seq<TokenV>, pos: int, one_param: bool)
    requires
        0 <= pos <= toks.len(),
    ensures
        sp_event(toks, pos, one_param) matches Result::Ok((ev, p)) ==> pos <= p <= toks.len(),
{
    assert forall|q: int| 0 <= q <= toks.len() implies (match #[trigger] sp_event_value(
        toks,
        q,
    ) {
        Result::Ok((ev, p)) => q <= p <= toks.len(),
        Result::Err(_) => true,
    }) by {
        lemma_sp_event_value_pos(toks, q);
    }
}

/// Read one event binding.  `one_param` selects the toolkit default (one
/// discarded parameter) over the composed default (no parameters).
fn parse_event(tokens: &Vec<Token>, pos: usize, one_param: bool) -> (r: Result<
    (Event, usize),
    ParseError,
>)
    requires
        pos <= tokens.len(),
    ensures
        match r {
            Result::Ok((e, p)) => sp_event(toks_view(tokens@), pos as int, one_param) == Result::<
                (EventV, int),
                ParseErrorV,
            >::Ok((e@, p as int)) && pos <= p <= tokens.len(),
            Result::Err(e) => sp_event(toks_view(tokens@), pos as int, one_param) == Result::<
                (EventV, int),
                ParseErrorV,
            >::Err(e@),
        },
{
    let ghost tv = toks_view(tokens@);
    proof {
        lemma_toks_view(tokens@);
        lemma_sp_event_pos(tv, pos as int, one_param);
    }
    let mut p1 = pos;
    let params: Vec<String>;
    let has_group = pos < tokens.len() && (match &tokens[pos] {
        Token::Group(Delim::Paren, _) => true,
        _ => false,
    });
    proof {
        if (pos as int) < tokens@.len() {
            assert(tv[pos as int] == tokens@[pos as int]@);
        }
    }
    if has_group {
        match &tokens[pos] {
            Token::Group(Delim::Paren, tts) => {
                match parse_comma_ident_list(tts) {
                    Result::Ok(ps) => {
                        params = ps;
                        p1 = pos + 1;
                    },
                    Result::Err(e) => {
                        return Result::Err(e);
                    },
                }
            },
            _ => {
                proof {
                    assert(false);
                }
                params = Vec::new();
            },
        }
    } else if one_param {
        let mut ps: Vec<String> = Vec::new();
        ps.push(String::from_str("_"));
        proof {
            reveal_strlit("_");
            assert("_"@ =~= seq!['_']);
            assert(strs_view(ps@) =~= seq![seq!['_']]);
        }
        params = ps;
    } else {
        let ps: Vec<String> = Vec::new();
        proof {
            assert(strs_view(ps@) =~= Seq::<Seq<char>>::empty());
        }
        params = ps;
    }
    let ghost paramsv = strs_view(params@);
    proof {
        if (p1 as int) < tokens@.len() {
            assert(tv[p1 as int] == tokens@[p1 as int]@);
        }
        if (p1 as int + 1) < tokens@.len() {
            assert(tv[p1 as int + 1] == tokens@[p1 as int + 1]@);
        }
    }
    let has_with = p1 < tokens.len() && (match &tokens[p1] {
        Token::Ident(s) => *s == String::from_str("with"),
        _ => false,
    });
    let mut p2 = p1;
    let mut model_ident: Option<String> = Option::None;
    if has_with {
        if p1 + 1 < tokens.len() {
            match &tokens[p1 + 1] {
                Token::Ident(s) => {
                    model_ident = Option::Some(s.clone());
                    p2 = p1 + 2;
                },
                _ => {
                    return Result::Err(
                        ParseError::ExpectedIdentAfterWith(found_at(tokens, p1 + 1)),
                    );
                },
            }
        } else {
            return Result::Err(ParseError::ExpectedIdentAfterWith(Option::None));
        }
    }
    proof {
        if (p2 as int) < tokens@.len() {
            assert(tv[p2 as int] == tokens@[p2 as int]@);
        }
    }
    if !(p2 < tokens.len() && is_punct(&tokens[p2], Punct::FatArrow)) {
        return Result::Err(ParseError::ExpectedFatArrow(found_at(tokens, p2)));
    }
    let p3 = p2 + 1;
    proof {
        if (p3 as int + 1) < tokens@.len() {
            assert(tv[p3 as int + 1] == tokens@[p3 as int + 1]@);
        }
    }
    let is_foreign = p3 < tokens.len() && p3 + 1 < tokens.len() && is_punct(
        &tokens[p3 + 1],
        Punct::At,
    );
    if is_foreign {
        let (ev, p4) = match parse_event_value(tokens, p3 + 2) {
            Result::Ok(x) => x,
            Result::Err(e) => {
                return Result::Err(e);
            },
        };
        let target = match parse_ident(tokens, p3) {
            Result::Ok(t) => t,
            Result::Err(e) => {
                return Result::Err(e);
            },
        };
        let e = Event {
            model_ident,
            params,
            value: EventValue::ForeignWidget(target, ev),
        };
        Result::Ok((e, p4))
    } else {
        let (ev, p4) = match parse_event_value(tokens, p3) {
            Result::Ok(x) => x,
            Result::Err(e) => {
                return Result::Err(e);
            },
        };
        let e = Event { model_ident, params, value: EventValue::CurrentWidget(ev) };
        Result::Ok((e, p4))
    }
}

// ---------------------------------------------------------------------------
// Properties or child properties.
// ---------------------------------------------------------------------------

/// Merge `entries[from..]` into `m`, the later write winning.
pub open spec fn assoc_merge(
    m: Seq<(Seq<char>, Seq<TokenV>)>,
    entries: Seq<(Seq<char>, Seq<TokenV>)>,
    from: int,
) -> Seq<(Seq<char>, Seq<TokenV>)>
    decreases entries.len() - from,
{
    if !(0 <= from < entries.len()) {
        m
    } else {
        assoc_merge(assoc_set(m, entries[from].0, entries[from].1), entries, from + 1)
    }
}

/// Merging keeps the keys distinct.
pub proof fn lemma_assoc_merge_wf(
    m: Seq<(Seq<char>, Seq<TokenV>)>,
    entries: Seq<(Seq<char>, Seq<TokenV>)>,
    from: int,
)
    requires
        assoc_wf(m),
    ensures
        assoc_wf(assoc_merge(m, entries, from)),
    decreases entries.len() - from,
{
    if 0 <= from < entries.len() {
        lemma_assoc_set_wf(m, entries[from].0, entries[from].1);
        lemma_assoc_merge_wf(assoc_set(m, entries[from].0, entries[from].1), entries, from + 1);
    }
}

/// Merge a parsed child-property list into `m`.
fn merge_props(
    m: Vec<(String, Vec<Token>)>,
    entries: &Vec<(String, Vec<Token>)>,
) -> (r: Vec<(String, Vec<Token>)>)
    requires
        assoc_wf(props_view(m@)),
    ensures
        props_view(r@) == assoc_merge(props_view(m@), props_view(entries@), 0),
        assoc_wf(props_view(r@)),
{
    let ghost ev = props_view(entries@);
    let ghost m0 = props_view(m@);
    proof {
        lemma_assoc_merge_wf(m0, ev, 0);
    }
    let mut out = m;
    let mut i: usize = 0;
    while i < entries.len()
        invariant
            i <= entries.len(),
            ev == props_view(entries@),
            ev.len() == entries@.len(),
            assoc_wf(props_view(out@)),
            assoc_merge(props_view(out@), ev, i as int) == assoc_merge(m0, ev, 0),
        decreases entries.len() - i,
    {
        let k = entries[i].0.clone();
        let v = clone_toks(&entries[i].1);
        proof {
            assert(ev[i as int] == (entries@[i as int].0@, toks_view(entries@[i as int].1@)));
        }
        out = insert_span(out, k, v);
        i += 1;
    }
    out
}

/// After a property's `identifier :` (the colon stands at `pos`): a brace
/// group holds child-property pairs to merge into `cprops`; anything else is
/// one opaque expression recorded in `props` under `name`, the later write
/// winning either way.
pub open spec fn sp_value_or_child_props(
    toks: Seq<TokenV>,
    pos: int,
    name: Seq<char>,
    cprops: Seq<(Seq<char>, Seq<TokenV>)>,
    props: Seq<(Seq<char>, Seq<TokenV>)>,
) -> Result<(Seq<(Seq<char>, Seq<TokenV>)>, Seq<(Seq<char>, Seq<TokenV>)>, int), ParseErrorV> {
    if pos + 1 < toks.len() && (toks[pos + 1] matches TokenV::Group(Delim::Brace, _)) {
        match sp_child_properties(toks[pos + 1]->Group_1, 0, Seq::empty()) {
            Result::Ok(new_props) => Result::Ok(
                (assoc_merge(cprops, new_props, 0), props, pos + 2),
            ),
            Result::Err(e) => Result::Err(e),
        }
    } else {
        let (v, p) = sp_value(toks, pos + 1);
        Result::Ok((cprops, assoc_set(props, name, v), p))
    }
}

/// Read a property value or a child-property group, with the entry's
/// identifier already consumed and its `:` standing at `pos`.
fn parse_value_or_child_properties(
    tokens: &Vec<Token>,
    pos: usize,
    name: String,
    cprops: Vec<(String, Vec<Token>)>,
    props: Vec<(String, Vec<Token>)>,
) -> (r: Result<(Vec<(String, Vec<Token>)>, Vec<(String, Vec<Token>)>, usize), ParseError>)
    requires
        pos < tokens.len(),
        assoc_wf(props_view(cprops@)),
        assoc_wf(props_view(props@)),
    ensures
        match r {
            Result::Ok((cp, pr, p)) => sp_value_or_child_props(
                toks_view(tokens@),
                pos as int,
                name@,
                props_view(cprops@),
                props_view(props@),
            ) == Result::<
                (Seq<(Seq<char>, Seq<TokenV>)>, Seq<(Seq<char>, Seq<TokenV>)>, int),
                ParseErrorV,
            >::Ok((props_view(cp@), props_view(pr@), p as int)) && pos < p <= tokens.len()
                && assoc_wf(props_view(cp@)) && assoc_wf(props_view(pr@)),
            Result::Err(e) => sp_value_or_child_props(
                toks_view(tokens@),
                pos as int,
                name@,
                props_view(cprops@),
                props_view(props@),
            ) == Result::<
                (Seq<(Seq<char>, Seq<TokenV>)>, Seq<(Seq<char>, Seq<TokenV>)>, int),
                ParseErrorV,
            >::Err(e@),
        },
{
    let ghost tv = toks_view(tokens@);
    proof {
        lemma_toks_view(tokens@);
        if (pos as int + 1) < tokens@.len() {
            assert(tv[pos as int + 1] == tokens@[pos as int + 1]@);
        }
        lemma_sp_value_pos(tv, pos as int + 1);
    }
    let is_brace = pos + 1 < tokens.len() && (match &tokens[pos + 1] {
        Token::Group(Delim::Brace, _) => true,
        _ => false,
    });
    if is_brace {
        match &tokens[pos + 1] {
            Token::Group(Delim::Brace, tts) => {
                let empty_acc: Vec<(String, Vec<Token>)> = Vec::new();
                proof {
                    assert(props_view(empty_acc@) =~= Seq::<(Seq<char>, Seq<TokenV>)>::empty());
                }
                match parse_child_properties(tts, empty_acc) {
                    Result::Ok(new_props) => {
                        let merged = merge_props(cprops, &new_props);
                        Result::Ok((merged, props, pos + 2))
                    },
                    Result::Err(e) => Result::Err(e),
                }
            },
            _ => {
                proof {
                    assert(false);
                }
                Result::Err(ParseError::UnexpectedEnd)
            },
        }
    } else {
        let (v, p) = parse_value(tokens, pos + 1);
        let pr = insert_span(props, name, v);
        Result::Ok((cprops, pr, p))
    }
}

// ---------------------------------------------------------------------------
// Widget declarations (the mutually recursive core), specification side.
// ---------------------------------------------------------------------------

/// Fold over a toolkit widget's body: nested children (led by an attribute
/// marker or a qualified name), properties, child properties, and events.
/// A toolkit signal keeps only its last-declared binding.
pub open spec fn sp_gtk_body(
    toks: Seq<TokenV>,
    pos: int,
    children: Seq<WidgetV>,
    props: Seq<(Seq<char>, Seq<TokenV>)>,
    cprops: Seq<(Seq<char>, Seq<TokenV>)>,
    events: Seq<(Seq<char>, EventV)>,
    g: Seq<(Seq<char>, u64)>,
) -> Result<
    (
        Seq<WidgetV>,
        Seq<(Seq<char>, Seq<TokenV>)>,
        Seq<(Seq<char>, Seq<TokenV>)>,
        Seq<(Seq<char>, EventV)>,
        Seq<(Seq<char>, u64)>,
    ),
    ParseErrorV,
>
    decreases size_from(toks, pos), 2int,
        via sp_gtk_body_dec
{
    if !(0 <= pos < toks.len()) {
        Result::Ok((children, props, cprops, events, g))
    } else if toks[pos] == TokenV::Punct(Punct::Pound) || (sp_try_name(toks, pos) is Some) {
        match sp_child(toks, pos, g) {
            Result::Err(e) => Result::Err(e),
            Result::Ok((w, p, _pid, g2)) => {
                let p2 = if p < toks.len() && toks[p] == TokenV::Punct(Punct::Comma) {
                    p + 1
                } else {
                    p
                };
                if pos < p2 <= toks.len() {
                    sp_gtk_body(toks, p2, children.push(w), props, cprops, events, g2)
                } else {
                    Result::Err(ParseErrorV::UnexpectedEnd)
                }
            },
        }
    } else {
        match toks[pos] {
            TokenV::Ident(name) => {
                let p1 = pos + 1;
                if p1 >= toks.len() {
                    Result::Err(ParseErrorV::ExpectedPropertyOrEvent(Option::None))
                } else if toks[p1] == TokenV::Punct(Punct::Colon) {
                    match sp_value_or_child_props(toks, p1, name, cprops, props) {
                        Result::Err(e) => Result::Err(e),
                        Result::Ok((cp2, pr2, p)) => {
                            let p2 = if p < toks.len() && toks[p] == TokenV::Punct(
                                Punct::Comma,
                            ) {
                                p + 1
                            } else {
                                p
                            };
                            if pos < p2 <= toks.len() {
                                sp_gtk_body(toks, p2, children, pr2, cp2, events, g)
                            } else {
                                Result::Err(ParseErrorV::UnexpectedEnd)
                            }
                        },
                    }
                } else if (toks[p1] matches TokenV::Group(Delim::Paren, _)) || toks[p1]
                    == TokenV::Punct(Punct::FatArrow) {
                    match sp_event(toks, p1, true) {
                        Result::Err(e) => Result::Err(e),
                        Result::Ok((e, p)) => {
                            let p2 = if p < toks.len() && toks[p] == TokenV::Punct(
                                Punct::Comma,
                            ) {
                                p + 1
                            } else {
                                p
                            };
                            if pos < p2 <= toks.len() {
                                sp_gtk_body(
                                    toks,
                                    p2,
                                    children,
                                    props,
                                    cprops,
                                    assoc_set(events, name, e),
                                    g,
                                )
                            } else {
                                Result::Err(ParseErrorV::UnexpectedEnd)
                            }
                        },
                    }
                } else {
                    Result::Err(ParseErrorV::ExpectedPropertyOrEvent(Option::Some(toks[p1])))
                }
            },
            _ => Result::Err(ParseErrorV::ExpectedIdent(Option::Some(toks[pos]))),
        }
    }
}

#[via_fn]
proof fn sp_gtk_body_dec(
    toks: Seq<TokenV>,
    pos: int,
    children: Seq<WidgetV>,
    props: Seq<(Seq<char>, Seq<TokenV>)>,
    cprops: Seq<(Seq<char>, Seq<TokenV>)>,
    events: Seq<(Seq<char>, EventV)>,
    g: Seq<(Seq<char>, u64)>,
) {
    if 0 <= pos < toks.len() {
        assert forall|q: int| pos < q <= toks.len() implies size_from(toks, q) < size_from(
            toks,
            pos,
        ) by {
            lemma_size_from_mono(toks, pos, q);
        }
    }
}

/// Fold over a composed widget's body.  A nested child is led by an
/// attribute marker or by a qualified name directly followed by a brace
/// group; bindings for one signal accumulate in declaration order.
pub open spec fn sp_relm_body(
    toks: Seq<TokenV>,
    pos: int,
    children: Seq<WidgetV>,
    props: Seq<(Seq<char>, Seq<TokenV>)>,
    cprops: Seq<(Seq<char>, Seq<TokenV>)>,
    events: Seq<(Seq<char>, Seq<EventV>)>,
    g: Seq<(Seq<char>, u64)>,
) -> Result<
    (
        Seq<WidgetV>,
        Seq<(Seq<char>, Seq<TokenV>)>,
        Seq<(Seq<char>, Seq<TokenV>)>,
        Seq<(Seq<char>, Seq<EventV>)>,
        Seq<(Seq<char>, u64)>,
    ),
    ParseErrorV,
>
    decreases size_from(toks, pos), 2int,
        via sp_relm_body_dec
{
    if !(0 <= pos < toks.len()) {
        Result::Ok((children, props, cprops, events, g))
    } else if toks[pos] == TokenV::Punct(Punct::Pound) || (sp_try_name(toks, pos) matches
        Option::Some((path, e)) && e < toks.len() && (toks[e] matches TokenV::Group(
        Delim::Brace,
        _,
    ))) {
        match sp_child(toks, pos, g) {
            Result::Err(e) => Result::Err(e),
            Result::Ok((w, p, _pid, g2)) => {
                let p2 = if p < toks.len() && toks[p] == TokenV::Punct(Punct::Comma) {
                    p + 1
                } else {
                    p
                };
                if pos < p2 <= toks.len() {
                    sp_relm_body(toks, p2, children.push(w), props, cprops, events, g2)
                } else {
                    Result::Err(ParseErrorV::UnexpectedEnd)
                }
            },
        }
    } else {
        match toks[pos] {
            TokenV::Ident(name) => {
                let p1 = pos + 1;
                if p1 >= toks.len() {
                    Result::Err(ParseErrorV::ExpectedPropertyOrEvent(Option::None))
                } else if toks[p1] == TokenV::Punct(Punct::Colon) {
                    match sp_value_or_child_props(toks, p1, name, cprops, props) {
                        Result::Err(e) => Result::Err(e),
                        Result::Ok((cp2, pr2, p)) => {
                            let p2 = if p < toks.len() && toks[p] == TokenV::Punct(
                                Punct::Comma,
                            ) {
                                p + 1
                            } else {
                                p
                            };
                            if pos < p2 <= toks.len() {
                                sp_relm_body(toks, p2, children, pr2, cp2, events, g)
                            } else {
                                Result::Err(ParseErrorV::UnexpectedEnd)
                            }
                        },
                    }
                } else if (toks[p1] matches TokenV::Group(Delim::Paren, _)) || toks[p1]
                    == TokenV::Punct(Punct::FatArrow) {
                    match sp_event(toks, p1, false) {
                        Result::Err(e) => Result::Err(e),
                        Result::Ok((e, p)) => {
                            let p2 = if p < toks.len() && toks[p] == TokenV::Punct(
                                Punct::Comma,
                            ) {
                                p + 1
                            } else {
                                p
                            };
                            if pos < p2 <= toks.len() {
                                sp_relm_body(
                                    toks,
                                    p2,
                                    children,
                                    props,
                                    cprops,
                                    assoc_append(events, name, e),
                                    g,
                                )
                            } else {
                                Result::Err(ParseErrorV::UnexpectedEnd)
                            }
                        },
                    }
                } else {
                    Result::Err(ParseErrorV::ExpectedPropertyOrEvent(Option::Some(toks[p1])))
                }
            },
            _ => Result::Err(ParseErrorV::ExpectedIdent(Option::Some(toks[pos]))),
        }
    }
}

#[via_fn]
proof fn sp_relm_body_dec(
    toks: Seq<TokenV>,
    pos: int,
    children: Seq<WidgetV>,
    props: Seq<(Seq<char>, Seq<TokenV>)>,
    cprops: Seq<(Seq<char>, Seq<TokenV>)>,
    events: Seq<(Seq<char>, Seq<EventV>)>,
    g: Seq<(Seq<char>, u64)>,
) {
    if 0 <= pos < toks.len() {
        assert forall|q: int| pos < q <= toks.len() implies size_from(toks, q) < size_from(
            toks,
            pos,
        ) by {
            lemma_size_from_mono(toks, pos, q);
        }
    }
}

/// Parse a toolkit widget declaration at `pos`: a qualified path, an
/// optional parenthesized constructor-parameter list, and a brace body.
/// The node's default name is drawn from the generator after the body (so
/// children are named first); `save` records that an explicit name attribute
/// was given.
pub open spec fn sp_widget(toks: Seq<TokenV>, pos: int, save: bool, g: Seq<(Seq<char>, u64)>) -> Result<
    (WidgetV, int, Seq<(Seq<char>, u64)>),
    ParseErrorV,
>
    decreases size_from(toks, pos), 0int,
        via sp_widget_dec
{
    match sp_try_name(toks, pos) {
        Option::None => Result::Err(ParseErrorV::ExpectedQualifiedName(sp_found(toks, pos))),
        Option::Some((path, p1)) => {
            if !(0 <= pos < p1 <= toks.len()) {
                Result::Err(ParseErrorV::UnexpectedEnd)
            } else {
                let (init, p2): (Seq<Seq<TokenV>>, int) = if p1 < toks.len() && (toks[p1] matches
                    TokenV::Group(Delim::Paren, _)) {
                    (sp_comma_list(toks[p1]->Group_1, 0), p1 + 1)
                } else {
                    (Seq::empty(), p1)
                };
                if p2 < toks.len() && (toks[p2] matches TokenV::Group(Delim::Brace, _)) {
                    let body = toks[p2]->Group_1;
                    match sp_gtk_body(
                        body,
                        0,
                        Seq::empty(),
                        Seq::empty(),
                        Seq::empty(),
                        Seq::empty(),
                        g,
                    ) {
                        Result::Err(e) => Result::Err(e),
                        Result::Ok((children, props, cprops, events, g2)) => {
                            let base = lower_seq(path.segments.last());
                            let w = WidgetV {
                                child_properties: cprops,
                                children,
                                container_type: Option::None,
                                init_parameters: init,
                                name: NameGen::spec_name(g2, base),
                                parent_id: Option::None,
                                properties: props,
                                typ: path,
                                widget: EitherWidgetV::Gtk(
                                    GtkWidgetV { events, relm_name: Option::None, save },
                                ),
                            };
                            Result::Ok((w, p2 + 1, bump_counts(g2, base)))
                        },
                    }
                } else {
                    Result::Err(ParseErrorV::ExpectedBrace(sp_found(toks, p2)))
                }
            }
        },
    }
}

#[via_fn]
proof fn sp_widget_dec(toks: Seq<TokenV>, pos: int, save: bool, g: Seq<(Seq<char>, u64)>) {
    if sp_try_name(toks, pos) is Some {
        let p1 = sp_try_name(toks, pos)->Some_0.1;
        if 0 <= pos < p1 <= toks.len() {
            let p2 = if p1 < toks.len() && (toks[p1] matches TokenV::Group(Delim::Paren, _)) {
                p1 + 1
            } else {
                p1
            };
            if p2 < toks.len() && (toks[p2] matches TokenV::Group(Delim::Brace, _)) {
                let body = toks[p2]->Group_1;
                lemma_size_from_mono(toks, pos, p2);
                lemma_group_size(toks, p2, Delim::Brace, body);
            }
        }
    }
}

/// Parse a composed widget declaration at `pos`: a qualified path, optional
/// constructor parameters, and an optional brace body — a composed leaf may
/// stand bare, in which case the token after the path is skipped, as for a
/// body.  The default name carries a leading underscore.
pub open spec fn sp_relm_widget(toks: Seq<TokenV>, pos: int, g: Seq<(Seq<char>, u64)>) -> Result<
    (WidgetV, int, Seq<(Seq<char>, u64)>),
    ParseErrorV,
>
    decreases size_from(toks, pos), 0int,
        via sp_relm_widget_dec
{
    match sp_try_name(toks, pos) {
        Option::None => Result::Err(ParseErrorV::ExpectedQualifiedName(sp_found(toks, pos))),
        Option::Some((path, p1)) => {
            if !(0 <= pos < p1 <= toks.len()) {
                Result::Err(ParseErrorV::UnexpectedEnd)
            } else {
                let (init, p2): (Seq<Seq<TokenV>>, int) = if p1 < toks.len() && (toks[p1] matches
                    TokenV::Group(Delim::Paren, _)) {
                    (sp_comma_list(toks[p1]->Group_1, 0), p1 + 1)
                } else {
                    (Seq::empty(), p1)
                };
                if p2 >= toks.len() {
                    Result::Err(ParseErrorV::UnexpectedEnd)
                } else {
                    let base = lower_seq(path.segments.last());
                    if toks[p2] matches TokenV::Group(Delim::Brace, _) {
                        let body = toks[p2]->Group_1;
                        match sp_relm_body(
                            body,
                            0,
                            Seq::empty(),
                            Seq::empty(),
                            Seq::empty(),
                            Seq::empty(),
                            g,
                        ) {
                            Result::Err(e) => Result::Err(e),
                            Result::Ok((children, props, cprops, events, g2)) => {
                                let w = WidgetV {
                                    child_properties: cprops,
                                    children,
                                    container_type: Option::None,
                                    init_parameters: init,
                                    name: seq!['_'] + NameGen::spec_name(g2, base),
                                    parent_id: Option::None,
                                    properties: props,
                                    typ: path,
                                    widget: EitherWidgetV::Relm(RelmWidgetV { events }),
                                };
                                Result::Ok((w, p2 + 1, bump_counts(g2, base)))
                            },
                        }
                    } else {
                        let w = WidgetV {
                            child_properties: Seq::empty(),
                            children: Seq::empty(),
                            container_type: Option::None,
                            init_parameters: init,
                            name: seq!['_'] + NameGen::spec_name(g, base),
                            parent_id: Option::None,
                            properties: Seq::empty(),
                            typ: path,
                            widget: EitherWidgetV::Relm(RelmWidgetV { events: Seq::empty() }),
                        };
                        Result::Ok((w, p2 + 1, bump_counts(g, base)))
                    }
                }
            }
        },
    }
}

#[via_fn]
proof fn sp_relm_widget_dec(toks: Seq<TokenV>, pos: int, g: Seq<(Seq<char>, u64)>) {
    if sp_try_name(toks, pos) is Some {
        let p1 = sp_try_name(toks, pos)->Some_0.1;
        if 0 <= pos < p1 <= toks.len() {
            let p2 = if p1 < toks.len() && (toks[p1] matches TokenV::Group(Delim::Paren, _)) {
                p1 + 1
            } else {
                p1
            };
            if p2 < toks.len() && (toks[p2] matches TokenV::Group(Delim::Brace, _)) {
                let body = toks[p2]->Group_1;
                lemma_size_from_mono(toks, pos, p2);
                lemma_group_size(toks, p2, Delim::Brace, body);
            }
        }
    }
}

/// Parse one complete widget declaration: leading attributes, then a toolkit
/// widget if the token after the first path segment is `::`, a composed
/// widget otherwise.  An explicit `name` attribute overrides the generated
/// name (and marks a toolkit widget as saved), `container` sets the
/// container marker, `parent` is handed back as the explicit parent.
pub open spec fn sp_child(toks: Seq<TokenV>, pos: int, g: Seq<(Seq<char>, u64)>) -> Result<
    (WidgetV, int, Option<Seq<char>>, Seq<(Seq<char>, u64)>),
    ParseErrorV,
>
    decreases size_from(toks, pos), 1int,
        via sp_child_dec
{
    match sp_attributes(toks, pos) {
        Result::Err(e) => Result::Err(e),
        Result::Ok((attrs, p1)) => {
            if !(pos <= p1 <= toks.len()) {
                Result::Err(ParseErrorV::UnexpectedEnd)
            } else {
                let container_type = attr_last(attrs, "container"@);
                let name_attr: Option<Seq<char>> = match attr_last(attrs, "name"@) {
                    Option::Some(Option::Some(n)) => Option::Some(n),
                    _ => Option::None,
                };
                let parent_id: Option<Seq<char>> = match attr_last(attrs, "parent"@) {
                    Option::Some(Option::Some(p)) => Option::Some(p),
                    _ => Option::None,
                };
                let res = if p1 + 1 < toks.len() && toks[p1 + 1] == TokenV::Punct(
                    Punct::ModSep,
                ) {
                    sp_widget(toks, p1, name_attr is Some, g)
                } else {
                    sp_relm_widget(toks, p1, g)
                };
                match res {
                    Result::Err(e) => Result::Err(e),
                    Result::Ok((w, p, g2)) => {
                        let named = WidgetV {
                            name: if name_attr is Some {
                                name_attr->0
                            } else {
                                w.name
                            },
                            container_type,
                            ..w
                        };
                        Result::Ok((named, p, parent_id, g2))
                    },
                }
            }
        },
    }
}

#[via_fn]
proof fn sp_child_dec(toks: Seq<TokenV>, pos: int, g: Seq<(Seq<char>, u64)>) {
    if 0 <= pos <= toks.len() {
        assert forall|q: int| pos <= q <= toks.len() implies size_from(toks, q) <= size_from(
            toks,
            pos,
        ) by {
            lemma_size_from_mono(toks, pos, q);
        }
    }
}

/// Parse a whole view declaration: one widget declaration, whose explicit
/// parent (if any) is recorded on the returned root.  Tokens after the
/// declaration are ignored.
pub open spec fn sp_parse(toks: Seq<TokenV>, g: Seq<(Seq<char>, u64)>) -> Result<
    (WidgetV, Seq<(Seq<char>, u64)>),
    ParseErrorV,
> {
    match sp_child(toks, 0, g) {
        Result::Err(e) => Result::Err(e),
        Result::Ok((w, _p, pid, g2)) => Result::Ok((WidgetV { parent_id: pid, ..w }, g2)),
    }
}

// ---------------------------------------------------------------------------
// Widget declarations, executable side.
// ---------------------------------------------------------------------------

/// Read a toolkit widget's whole body (a brace group's contents).
fn parse_gtk_body(tokens: &Vec<Token>, gen: NameGen) -> (r: Result<
    (
        Vec<Widget>,
        Vec<(String, Vec<Token>)>,
        Vec<(String, Vec<Token>)>,
        Vec<(String, Event)>,
        NameGen,
    ),
    ParseError,
>)
    requires
        gen.wf(),
    ensures
        match r {
            Result::Ok((ch, pr, cp, ev, g)) => sp_gtk_body(
                toks_view(tokens@),
                0,
                Seq::empty(),
                Seq::empty(),
                Seq::empty(),
                Seq::empty(),
                gen@,
            ) == Result::<
                (
                    Seq<WidgetV>,
                    Seq<(Seq<char>, Seq<TokenV>)>,
                    Seq<(Seq<char>, Seq<TokenV>)>,
                    Seq<(Seq<char>, EventV)>,
                    Seq<(Seq<char>, u64)>,
                ),
                ParseErrorV,
            >::Ok(
                (
                    widgets_view(ch@),
                    props_view(pr@),
                    props_view(cp@),
                    gtk_events_view(ev@),
                    g@,
                ),
            ) && g.wf(),
            Result::Err(e) => sp_gtk_body(
                toks_view(tokens@),
                0,
                Seq::empty(),
                Seq::empty(),
                Seq::empty(),
                Seq::empty(),
                gen@,
            ) == Result::<
                (
                    Seq<WidgetV>,
                    Seq<(Seq<char>, Seq<TokenV>)>,
                    Seq<(Seq<char>, Seq<TokenV>)>,
                    Seq<(Seq<char>, EventV)>,
                    Seq<(Seq<char>, u64)>,
                ),
                ParseErrorV,
            >::Err(e@),
        },
    decreases size_from(toks_view(tokens@), 0), 2int,
{
    let ghost tv = toks_view(tokens@);
    proof {
        lemma_toks_view(tokens@);
    }
    let mut children: Vec<Widget> = Vec::new();
    let mut properties: Vec<(String, Vec<Token>)> = Vec::new();
    let mut child_properties: Vec<(String, Vec<Token>)> = Vec::new();
    let mut events: Vec<(String, Event)> = Vec::new();
    let mut g = gen;
    let mut j: usize = 0;
    proof {
        assert(widgets_view(children@) =~= Seq::<WidgetV>::empty());
        assert(props_view(properties@) =~= Seq::<(Seq<char>, Seq<TokenV>)>::empty());
        assert(props_view(child_properties@) =~= Seq::<(Seq<char>, Seq<TokenV>)>::empty());
        assert(gtk_events_view(events@) =~= Seq::<(Seq<char>, EventV)>::empty());
    }
    while j < tokens.len()
        invariant
            j <= tokens.len(),
            tv == toks_view(tokens@),
            tv.len() == tokens@.len(),
            forall|q: int| 0 <= q < tokens@.len() ==> tv[q] == #[trigger] tokens@[q]@,
            g.wf(),
            assoc_wf(props_view(properties@)),
            assoc_wf(props_view(child_properties@)),
            assoc_wf(gtk_events_view(events@)),
            sp_gtk_body(tv, 0, Seq::empty(), Seq::empty(), Seq::empty(), Seq::empty(), gen@)
                == sp_gtk_body(
                tv,
                j as int,
                widgets_view(children@),
                props_view(properties@),
                props_view(child_properties@),
                gtk_events_view(events@),
                g@,
            ),
        decreases tokens.len() - j,
    {
        let ghost j0 = j as int;
        let ghost ch0 = widgets_view(children@);
        let ghost pr0 = props_view(properties@);
        let ghost cp0 = props_view(child_properties@);
        let ghost ev0 = gtk_events_view(events@);
        let ghost g0 = g@;
        proof {
            assert(tv[j0] == tokens@[j0]@);
        }
        let is_pound = is_punct(&tokens[j], Punct::Pound);
        let is_child = if is_pound {
            true
        } else {
            match try_parse_name(tokens, j) {
                Option::Some(_) => true,
                Option::None => false,
            }
        };
        if is_child {
            proof {
                lemma_size_from_mono(tv, 0, j0);
            }
            match parse_child(tokens, j, g) {
                Result::Ok((w, p, _pid, g2)) => {
                    g = g2;
                    let ghost wv = w@;
                    let ghost ch_old = children@;
                    children.push(w);
                    proof {
                        lemma_widgets_view_push(ch_old, children@.last());
                    }
                    if p < tokens.len() && is_comma(&tokens[p]) {
                        proof {
                            assert(tv[p as int] == tokens@[p as int]@);
                        }
                        j = p + 1;
                    } else {
                        j = p;
                    }
                    proof {
                        assert(sp_gtk_body(tv, j0, ch0, pr0, cp0, ev0, g0) == sp_gtk_body(
                            tv,
                            j as int,
                            widgets_view(children@),
                            pr0,
                            cp0,
                            ev0,
                            g@,
                        ));
                    }
                },
                Result::Err(e) => {
                    return Result::Err(e);
                },
            }
        } else {
            let name = match &tokens[j] {
                Token::Ident(s) => s.clone(),
                _ => {
                    return Result::Err(ParseError::ExpectedIdent(found_at(tokens, j)));
                },
            };
            let p1 = j + 1;
            if p1 >= tokens.len() {
                return Result::Err(ParseError::ExpectedPropertyOrEvent(Option::None));
            }
            proof {
                assert(tv[p1 as int] == tokens@[p1 as int]@);
            }
            if is_punct(&tokens[p1], Punct::Colon) {
                match parse_value_or_child_properties(tokens, p1, name, child_properties,
                    properties) {
                    Result::Ok((cp2, pr2, p)) => {
                        child_properties = cp2;
                        properties = pr2;
                        if p < tokens.len() && is_comma(&tokens[p]) {
                            proof {
                                assert(tv[p as int] == tokens@[p as int]@);
                            }
                            j = p + 1;
                        } else {
                            j = p;
                        }
                        proof {
                            assert(sp_gtk_body(tv, j0, ch0, pr0, cp0, ev0, g0) == sp_gtk_body(
                                tv,
                                j as int,
                                ch0,
                                props_view(properties@),
                                props_view(child_properties@),
                                ev0,
                                g@,
                            ));
                        }
                    },
                    Result::Err(e) => {
                        return Result::Err(e);
                    },
                }
            } else {
                let is_event = (match &tokens[p1] {
                    Token::Group(Delim::Paren, _) => true,
                    _ => false,
                }) || is_punct(&tokens[p1], Punct::FatArrow);
                if !is_event {
                    return Result::Err(ParseError::ExpectedPropertyOrEvent(found_at(tokens, p1)));
                }
                match parse_event(tokens, p1, true) {
                    Result::Ok((e, p)) => {
                        let ghost evv = e@;
                        events = insert_gtk_event(events, name, e);
                        if p < tokens.len() && is_comma(&tokens[p]) {
                            proof {
                                assert(tv[p as int] == tokens@[p as int]@);
                            }
                            j = p + 1;
                        } else {
                            j = p;
                        }
                        proof {
                            assert(sp_gtk_body(tv, j0, ch0, pr0, cp0, ev0, g0) == sp_gtk_body(
                                tv,
                                j as int,
                                ch0,
                                pr0,
                                cp0,
                                gtk_events_view(events@),
                                g@,
                            ));
                        }
                    },
                    Result::Err(e) => {
                        return Result::Err(e);
                    },
                }
            }
        }
    }
    Result::Ok((children, properties, child_properties, events, g))
}

/// Read a composed widget's whole body (a brace group's contents).
fn parse_relm_body(tokens: &Vec<Token>, gen: NameGen) -> (r: Result<
    (
        Vec<Widget>,
        Vec<(String, Vec<Token>)>,
        Vec<(String, Vec<Token>)>,
        Vec<(String, Vec<Event>)>,
        NameGen,
    ),
    ParseError,
>)
    requires
        gen.wf(),
    ensures
        match r {
            Result::Ok((ch, pr, cp, ev, g)) => sp_relm_body(
                toks_view(tokens@),
                0,
                Seq::empty(),
                Seq::empty(),
                Seq::empty(),
                Seq::empty(),
                gen@,
            ) == Result::<
                (
                    Seq<WidgetV>,
                    Seq<(Seq<char>, Seq<TokenV>)>,
                    Seq<(Seq<char>, Seq<TokenV>)>,
                    Seq<(Seq<char>, Seq<EventV>)>,
                    Seq<(Seq<char>, u64)>,
                ),
                ParseErrorV,
            >::Ok(
                (
                    widgets_view(ch@),
                    props_view(pr@),
                    props_view(cp@),
                    relm_events_view(ev@),
                    g@,
                ),
            ) && g.wf(),
            Result::Err(e) => sp_relm_body(
                toks_view(tokens@),
                0,
                Seq::empty(),
                Seq::empty(),
                Seq::empty(),
                Seq::empty(),
                gen@,
            ) == Result::<
                (
                    Seq<WidgetV>,
                    Seq<(Seq<char>, Seq<TokenV>)>,
                    Seq<(Seq<char>, Seq<TokenV>)>,
                    Seq<(Seq<char>, Seq<EventV>)>,
                    Seq<(Seq<char>, u64)>,
                ),
                ParseErrorV,
            >::Err(e@),
        },
    decreases size_from(toks_view(tokens@), 0), 2int,
{
    let ghost tv = toks_view(tokens@);
    proof {
        lemma_toks_view(tokens@);
    }
    let mut children: Vec<Widget> = Vec::new();
    let mut properties: Vec<(String, Vec<Token>)> = Vec::new();
    let mut child_properties: Vec<(String, Vec<Token>)> = Vec::new();
    let mut events: Vec<(String, Vec<Event>)> = Vec::new();
    let mut g = gen;
    let mut j: usize = 0;
    proof {
        assert(widgets_view(children@) =~= Seq::<WidgetV>::empty());
        assert(props_view(properties@) =~= Seq::<(Seq<char>, Seq<TokenV>)>::empty());
        assert(props_view(child_properties@) =~= Seq::<(Seq<char>, Seq<TokenV>)>::empty());
        assert(relm_events_view(events@) =~= Seq::<(Seq<char>, Seq<EventV>)>::empty());
    }
    while j < tokens.len()
        invariant
            j <= tokens.len(),
            tv == toks_view(tokens@),
            tv.len() == tokens@.len(),
            forall|q: int| 0 <= q < tokens@.len() ==> tv[q] == #[trigger] tokens@[q]@,
            g.wf(),
            assoc_wf(props_view(properties@)),
            assoc_wf(props_view(child_properties@)),
            assoc_wf(relm_events_view(events@)),
            sp_relm_body(tv, 0, Seq::empty(), Seq::empty(), Seq::empty(), Seq::empty(), gen@)
                == sp_relm_body(
                tv,
                j as int,
                widgets_view(children@),
                props_view(properties@),
                props_view(child_properties@),
                relm_events_view(events@),
                g@,
            ),
        decreases tokens.len() - j,
    {
        let ghost j0 = j as int;
        let ghost ch0 = widgets_view(children@);
        let ghost pr0 = props_view(properties@);
        let ghost cp0 = props_view(child_properties@);
        let ghost ev0 = relm_events_view(events@);
        let ghost g0 = g@;
        proof {
            assert(tv[j0] == tokens@[j0]@);
        }
        let is_pound = is_punct(&tokens[j], Punct::Pound);
        let is_child = if is_pound {
            true
        } else {
            match try_parse_name(tokens, j) {
                Option::Some((_, e)) => e < tokens.len() && (match &tokens[e] {
                    Token::Group(Delim::Brace, _) => {
                        proof {
                            assert(tv[e as int] == tokens@[e as int]@);
                        }
                        true
                    },
                    _ => {
                        proof {
                            assert(tv[e as int] == tokens@[e as int]@);
                        }
                        false
                    },
                }),
                Option::None => false,
            }
        };
        if is_child {
            proof {
                lemma_size_from_mono(tv, 0, j0);
            }
            match parse_child(tokens, j, g) {
                Result::Ok((w, p, _pid, g2)) => {
                    g = g2;
                    let ghost ch_old = children@;
                    children.push(w);
                    proof {
                        lemma_widgets_view_push(ch_old, children@.last());
                    }
                    if p < tokens.len() && is_comma(&tokens[p]) {
                        proof {
                            assert(tv[p as int] == tokens@[p as int]@);
                        }
                        j = p + 1;
                    } else {
                        j = p;
                    }
                    proof {
                        assert(sp_relm_body(tv, j0, ch0, pr0, cp0, ev0, g0) == sp_relm_body(
                            tv,
                            j as int,
                            widgets_view(children@),
                            pr0,
                            cp0,
                            ev0,
                            g@,
                        ));
                    }
                },
                Result::Err(e) => {
                    return Result::Err(e);
                },
            }
        } else {
            let name = match &tokens[j] {
                Token::Ident(s) => s.clone(),
                _ => {
                    return Result::Err(ParseError::ExpectedIdent(found_at(tokens, j)));
                },
            };
            let p1 = j + 1;
            if p1 >= tokens.len() {
                return Result::Err(ParseError::ExpectedPropertyOrEvent(Option::None));
            }
            proof {
                assert(tv[p1 as int] == tokens@[p1 as int]@);
            }
            if is_punct(&tokens[p1], Punct::Colon) {
                match parse_value_or_child_properties(tokens, p1, name, child_properties,
                    properties) {
                    Result::Ok((cp2, pr2, p)) => {
                        child_properties = cp2;
                        properties = pr2;
                        if p < tokens.len() && is_comma(&tokens[p]) {
                            proof {
                                assert(tv[p as int] == tokens@[p as int]@);
                            }
                            j = p + 1;
                        } else {
                            j = p;
                        }
                        proof {
                            assert(sp_relm_body(tv, j0, ch0, pr0, cp0, ev0, g0) == sp_relm_body(
                                tv,
                                j as int,
                                ch0,
                                props_view(properties@),
                                props_view(child_properties@),
                                ev0,
                                g@,
                            ));
                        }
                    },
                    Result::Err(e) => {
                        return Result::Err(e);
                    },
                }
            } else {
                let is_event = (match &tokens[p1] {
                    Token::Group(Delim::Paren, _) => true,
                    _ => false,
                }) || is_punct(&tokens[p1], Punct::FatArrow);
                if !is_event {
                    return Result::Err(ParseError::ExpectedPropertyOrEvent(found_at(tokens, p1)));
                }
                match parse_event(tokens, p1, false) {
                    Result::Ok((e, p)) => {
                        events = append_relm_event(events, name, e);
                        if p < tokens.len() && is_comma(&tokens[p]) {
                            proof {
                                assert(tv[p as int] == tokens@[p as int]@);
                            }
                            j = p + 1;
                        } else {
                            j = p;
                        }
                        proof {
                            assert(sp_relm_body(tv, j0, ch0, pr0, cp0, ev0, g0) == sp_relm_body(
                                tv,
                                j as int,
                                ch0,
                                pr0,
                                cp0,
                                relm_events_view(events@),
                                g@,
                            ));
                        }
                    },
                    Result::Err(e) => {
                        return Result::Err(e);
                    },
                }
            }
        }
    }
    Result::Ok((children, properties, child_properties, events, g))
}

/// Read a toolkit widget declaration.
fn parse_widget(tokens: &Vec<Token>, pos: usize, save: bool, gen: NameGen) -> (r: Result<
    (Widget, usize, NameGen),
    ParseError,
>)
    requires
        pos <= tokens.len(),
        gen.wf(),
    ensures
        match r {
            Result::Ok((w, p, g)) => sp_widget(toks_view(tokens@), pos as int, save, gen@)
                == Result::<(WidgetV, int, Seq<(Seq<char>, u64)>), ParseErrorV>::Ok(
                (w@, p as int, g@),
            ) && pos < p <= tokens.len() && g.wf(),
            Result::Err(e) => sp_widget(toks_view(tokens@), pos as int, save, gen@) == Result::<
                (WidgetV, int, Seq<(Seq<char>, u64)>),
                ParseErrorV,
            >::Err(e@),
        },
    decreases size_from(toks_view(tokens@), pos as int), 0int,
{
    let ghost tv = toks_view(tokens@);
    proof {
        lemma_toks_view(tokens@);
    }
    let (path, p1) = match try_parse_name(tokens, pos) {
        Option::Some(x) => x,
        Option::None => {
            return Result::Err(ParseError::ExpectedQualifiedName(found_at(tokens, pos)));
        },
    };
    let mut init_parameters: Vec<Vec<Token>> = Vec::new();
    proof {
        assert(spans_view(init_parameters@) =~= Seq::<Seq<TokenV>>::empty());
    }
    let mut p2 = p1;
    if p1 < tokens.len() {
        proof {
            assert(tv[p1 as int] == tokens@[p1 as int]@);
        }
        match &tokens[p1] {
            Token::Group(Delim::Paren, tts) => {
                init_parameters = parse_comma_list(tts);
                p2 = p1 + 1;
            },
            _ => {},
        }
    }
    if p2 >= tokens.len() {
        return Result::Err(ParseError::ExpectedBrace(Option::None));
    }
    proof {
        assert(tv[p2 as int] == tokens@[p2 as int]@);
    }
    match &tokens[p2] {
        Token::Group(Delim::Brace, body) => {
            proof {
                lemma_size_from_mono(tv, pos as int, p2 as int);
                lemma_group_size(tv, p2 as int, Delim::Brace, toks_view(body@));
            }
            match parse_gtk_body(body, gen) {
                Result::Ok((children, properties, child_properties, events, g)) => {
                    let gtk_widget = GtkWidget { events, relm_name: Option::None, save };
                    let (w, g2) = Widget::new_gtk(
                        gtk_widget,
                        path,
                        init_parameters,
                        children,
                        properties,
                        child_properties,
                        g,
                    );
                    Result::Ok((w, p2 + 1, g2))
                },
                Result::Err(e) => Result::Err(e),
            }
        },
        _ => Result::Err(ParseError::ExpectedBrace(found_at(tokens, p2))),
    }
}

/// Read a composed widget declaration.
fn parse_relm_widget(tokens: &Vec<Token>, pos: usize, gen: NameGen) -> (r: Result<
    (Widget, usize, NameGen),
    ParseError,
>)
    requires
        pos <= tokens.len(),
        gen.wf(),
    ensures
        match r {
            Result::Ok((w, p, g)) => sp_relm_widget(toks_view(tokens@), pos as int, gen@)
                == Result::<(WidgetV, int, Seq<(Seq<char>, u64)>), ParseErrorV>::Ok(
                (w@, p as int, g@),
            ) && pos < p <= tokens.len() && g.wf(),
            Result::Err(e) => sp_relm_widget(toks_view(tokens@), pos as int, gen@) == Result::<
                (WidgetV, int, Seq<(Seq<char>, u64)>),
                ParseErrorV,
            >::Err(e@),
        },
    decreases size_from(toks_view(tokens@), pos as int), 0int,
{
    let ghost tv = toks_view(tokens@);
    proof {
        lemma_toks_view(tokens@);
    }
    let (path, p1) = match try_parse_name(tokens, pos) {
        Option::Some(x) => x,
        Option::None => {
            return Result::Err(ParseError::ExpectedQualifiedName(found_at(tokens, pos)));
        },
    };
    let mut init_parameters: Vec<Vec<Token>> = Vec::new();
    proof {
        assert(spans_view(init_parameters@) =~= Seq::<Seq<TokenV>>::empty());
    }
    let mut p2 = p1;
    if p1 < tokens.len() {
        proof {
            assert(tv[p1 as int] == tokens@[p1 as int]@);
        }
        match &tokens[p1] {
            Token::Group(Delim::Paren, tts) => {
                init_parameters = parse_comma_list(tts);
                p2 = p1 + 1;
            },
            _ => {},
        }
    }
    if p2 >= tokens.len() {
        return Result::Err(ParseError::UnexpectedEnd);
    }
    proof {
        assert(tv[p2 as int] == tokens@[p2 as int]@);
    }
    match &tokens[p2] {
        Token::Group(Delim::Brace, body) => {
            proof {
                lemma_size_from_mono(tv, pos as int, p2 as int);
                lemma_group_size(tv, p2 as int, Delim::Brace, toks_view(body@));
            }
            match parse_relm_body(body, gen) {
                Result::Ok((children, properties, child_properties, events, g)) => {
                    let relm_widget = RelmWidget { events };
                    let (w, g2) = Widget::new_relm(
                        relm_widget,
                        path,
                        init_parameters,
                        children,
                        properties,
                        child_properties,
                        g,
                    );
                    Result::Ok((w, p2 + 1, g2))
                },
                Result::Err(e) => Result::Err(e),
            }
        },
        _ => {
            let relm_widget = RelmWidget::new();
            let empty_children: Vec<Widget> = Vec::new();
            let empty_props: Vec<(String, Vec<Token>)> = Vec::new();
            let empty_cprops: Vec<(String, Vec<Token>)> = Vec::new();
            proof {
                assert(widgets_view(empty_children@) =~= Seq::<WidgetV>::empty());
                assert(props_view(empty_props@) =~= Seq::<(Seq<char>, Seq<TokenV>)>::empty());
                assert(props_view(empty_cprops@) =~= Seq::<(Seq<char>, Seq<TokenV>)>::empty());
            }
            let (w, g2) = Widget::new_relm(
                relm_widget,
                path,
                init_parameters,
                empty_children,
                empty_props,
                empty_cprops,
                gen,
            );
            Result::Ok((w, p2 + 1, g2))
        },
    }
}

/// Read one complete widget declaration with its leading attributes, and
/// apply their effects; hands back the explicit parent identifier, if any.
fn parse_child(tokens: &Vec<Token>, pos: usize, gen: NameGen) -> (r: Result<
    (Widget, usize, Option<String>, NameGen),
    ParseError,
>)
    requires
        pos <= tokens.len(),
        gen.wf(),
    ensures
        match r {
            Result::Ok((w, p, pid, g)) => sp_child(toks_view(tokens@), pos as int, gen@)
                == Result::<
                (WidgetV, int, Option<Seq<char>>, Seq<(Seq<char>, u64)>),
                ParseErrorV,
            >::Ok((w@, p as int, opt_str_view(pid), g@)) && pos < p <= tokens.len() && g.wf(),
            Result::Err(e) => sp_child(toks_view(tokens@), pos as int, gen@) == Result::<
                (WidgetV, int, Option<Seq<char>>, Seq<(Seq<char>, u64)>),
                ParseErrorV,
            >::Err(e@),
        },
    decreases size_from(toks_view(tokens@), pos as int), 1int,
{
    let ghost tv = toks_view(tokens@);
    proof {
        lemma_toks_view(tokens@);
    }
    let (attrs, p1) = match parse_attributes(tokens, pos) {
        Result::Ok(x) => x,
        Result::Err(e) => {
            return Result::Err(e);
        },
    };
    let container_type = attr_lookup(&attrs, &String::from_str("container"));
    let name_attr: Option<String> = match attr_lookup(&attrs, &String::from_str("name")) {
        Option::Some(Option::Some(n)) => Option::Some(n),
        _ => Option::None,
    };
    let parent_id: Option<String> = match attr_lookup(&attrs, &String::from_str("parent")) {
        Option::Some(Option::Some(p)) => Option::Some(p),
        _ => Option::None,
    };
    proof {
        lemma_size_from_mono(tv, pos as int, p1 as int);
        if (p1 as int + 1) < tokens@.len() {
            assert(tv[p1 as int + 1] == tokens@[p1 as int + 1]@);
        }
    }
    let is_gtk = p1 < tokens.len() && p1 + 1 < tokens.len() && is_punct(
        &tokens[p1 + 1],
        Punct::ModSep,
    );
    let res = if is_gtk {
        parse_widget(tokens, p1, name_attr.is_some(), gen)
    } else {
        parse_relm_widget(tokens, p1, gen)
    };
    match res {
        Result::Ok((w, p, g)) => {
            let mut w = w;
            match name_attr {
                Option::Some(n) => {
                    w.name = n;
                },
                Option::None => {},
            }
            w.container_type = container_type;
            Result::Ok((w, p, parent_id, g))
        },
        Result::Err(e) => Result::Err(e),
    }
}

/// Whether the declaration stands in a separate file: a view whose first
/// token is a string literal names that file, whose contents hold the real
/// declaration (wrapped in a single macro invocation).  The caller loads the
/// file and parses the wrapped tokens instead.
pub fn view_source(tokens: &Vec<Token>) -> (r: Option<String>)
    ensures
        match r {
            Option::Some(p) => tokens@.len() > 0 && toks_view(tokens@)[0] == TokenV::LitStr(p@),
            Option::None => tokens@.len() == 0 || !(toks_view(tokens@)[0] matches TokenV::LitStr(
                _,
            )),
        },
{
    proof {
        lemma_toks_view(tokens@);
    }
    if tokens.len() == 0 {
        return Option::None;
    }
    match &tokens[0] {
        Token::LitStr(s) => Option::Some(s.clone()),
        _ => Option::None,
    }
}

/// Parse a view declaration into its widget tree.
///
/// The tokens must hold the declaration inline (see [`view_source`] for the
/// file-indirection form).  One widget declaration is read — attributes,
/// qualified type, constructor parameters, body — and its explicit parent
/// identifier, if any, is recorded on the returned root.  Name generation
/// draws from `gen`, which is returned for the next declaration of the same
/// session.  Malformed input yields the error naming the grammar position
/// and the offending token; no partial tree is ever returned.
pub fn parse(tokens: &Vec<Token>, gen: NameGen) -> (r: Result<(Widget, NameGen), ParseError>)
    requires
        gen.wf(),
    ensures
        match r {
            Result::Ok((w, g)) => sp_parse(toks_view(tokens@), gen@) == Result::<
                (WidgetV, Seq<(Seq<char>, u64)>),
                ParseErrorV,
            >::Ok((w@, g@)) && g.wf(),
            Result::Err(e) => sp_parse(toks_view(tokens@), gen@) == Result::<
                (WidgetV, Seq<(Seq<char>, u64)>),
                ParseErrorV,
            >::Err(e@),
        },
{
    match parse_child(tokens, 0, gen) {
        Result::Ok((w, _p, pid, g)) => {
            let mut w = w;
            w.parent_id = pid;
            Result::Ok((w, g))
        },
        Result::Err(e) => Result::Err(e),
    }
}

} // verus!
