//! Laws of the parser, stated and proved over its specification functions.

use vstd::prelude::*;
use crate::tokens::TokenV;
use crate::tokens::Punct;
use crate::tokens::Delim;
use crate::names::NameGen;
use crate::names::bump_counts;
use crate::names::next_count;
use crate::names::has_key;
use crate::names::key_index;
use crate::names::sat_inc;
use crate::names::dec_digits;
use crate::names::dec_digit_char;
use crate::names::lower_seq;
use crate::ir::EventV;
use crate::ir::EventValueV;
use crate::ir::EventValueReturnV;
use crate::ir::EitherWidgetV;
use crate::ir::GtkWidgetV;
use crate::ir::WidgetV;
use crate::ir::WidgetPathV;
use crate::parser::ParseErrorV;
use crate::parser::sp_found;
use crate::parser::PrevTok;
use crate::parser::sp_scan;
use crate::parser::sp_value;
use crate::parser::sp_comma_list;
use crate::parser::sp_try_name;
use crate::parser::sp_attributes;
use crate::parser::sp_event;
use crate::parser::sp_event_value;
use crate::parser::sp_value_or_child_props;
use crate::parser::sp_child_properties;
use crate::parser::sp_gtk_body;
use crate::parser::sp_relm_body;
use crate::parser::sp_widget;
use crate::parser::sp_relm_widget;
use crate::parser::sp_child;
use crate::parser::lower_start;
use crate::parser::assoc_set;
use crate::parser::assoc_merge;
use crate::parser::assoc_append;
use crate::parser::assoc_wf;
use crate::tokens::size_from;
use crate::tokens::lemma_size_from_mono;
use crate::tokens::lemma_group_size;

verus! {

/// A valid single-widget declaration `Path(a1, a2){ prop: v }` parses to one
/// widget carrying exactly those constructor parameters, exactly that one
/// property, and no children; its type is the declared path and its name is
/// drawn from the generator.
///
/// The hypotheses say just that the input has that shape: a qualified name,
/// then a parenthesized group splitting into the two argument spans, then a
/// brace group holding one `prop: v` entry whose value runs to the end of
/// the body and does not itself open a brace group.
pub proof fn law_single_widget_declaration(
    toks: Seq<TokenV>,
    path: WidgetPathV,
    p1: int,
    args: Seq<TokenV>,
    a1: Seq<TokenV>,
    a2: Seq<TokenV>,
    body: Seq<TokenV>,
    prop: Seq<char>,
    v: Seq<TokenV>,
    save: bool,
    g: Seq<(Seq<char>, u64)>,
)
    requires
        sp_try_name(toks, 0) == Option::Some((path, p1)),
        p1 + 2 == toks.len(),
        toks[p1] == TokenV::Group(Delim::Paren, args),
        sp_comma_list(args, 0) == seq![a1, a2],
        toks[p1 + 1] == TokenV::Group(Delim::Brace, body),
        body == seq![TokenV::Ident(prop), TokenV::Punct(Punct::Colon)] + v,
        sp_value(body, 2) == (v, body.len() as int),
        v.len() > 0 ==> !(body[2] matches TokenV::Group(Delim::Brace, _)),
    ensures
        sp_widget(toks, 0, save, g) == Result::<
            (WidgetV, int, Seq<(Seq<char>, u64)>),
            ParseErrorV,
        >::Ok(
            (
                WidgetV {
                    child_properties: Seq::empty(),
                    children: Seq::empty(),
                    container_type: Option::None,
                    init_parameters: seq![a1, a2],
                    name: NameGen::spec_name(g, lower_seq(path.segments.last())),
                    parent_id: Option::None,
                    properties: seq![(prop, v)],
                    typ: path,
                    widget: EitherWidgetV::Gtk(
                        GtkWidgetV { events: Seq::empty(), relm_name: Option::None, save },
                    ),
                },
                p1 + 2,
                bump_counts(g, lower_seq(path.segments.last())),
            ),
        ),
{
    crate::parser::lemma_sp_try_name_pos(toks, 0);
    assert(body.len() >= 2);
    assert(body[0] == TokenV::Ident(prop));
    assert(body[1] == TokenV::Punct(Punct::Colon));
    // The entry is no nested child: the scan stops at the colon, which is
    // neither a group nor a comma.
    assert(sp_scan(body, 0, 0, PrevTok::AtStart, true, Seq::empty()) == sp_scan(
        body,
        1,
        0,
        PrevTok::AfterIdent,
        true,
        Seq::<Seq<char>>::empty().push(prop),
    ));
    assert(sp_scan(body, 1, 0, PrevTok::AfterIdent, true, Seq::<Seq<char>>::empty().push(prop))
        == (1int, 0int, PrevTok::AfterIdent, true, Seq::<Seq<char>>::empty().push(prop)));
    assert(sp_try_name(body, 0) is None);
    // The body fold records the one property and ends.
    let pr2 = assoc_set(Seq::empty(), prop, v);
    assert(pr2 =~= seq![(prop, v)]);
    assert(sp_value_or_child_props(body, 1, prop, Seq::empty(), Seq::empty()) == Result::<
        (Seq<(Seq<char>, Seq<TokenV>)>, Seq<(Seq<char>, Seq<TokenV>)>, int),
        ParseErrorV,
    >::Ok((Seq::empty(), seq![(prop, v)], body.len() as int)));
    assert(sp_gtk_body(
        body,
        body.len() as int,
        Seq::empty(),
        seq![(prop, v)],
        Seq::empty(),
        Seq::empty(),
        g,
    ) == Result::<
        (
            Seq<WidgetV>,
            Seq<(Seq<char>, Seq<TokenV>)>,
            Seq<(Seq<char>, Seq<TokenV>)>,
            Seq<(Seq<char>, EventV)>,
            Seq<(Seq<char>, u64)>,
        ),
        ParseErrorV,
    >::Ok((Seq::empty(), seq![(prop, v)], Seq::empty(), Seq::empty(), g)));
    assert(sp_gtk_body(body, 0, Seq::empty(), Seq::empty(), Seq::empty(), Seq::empty(), g)
        == Result::<
        (
            Seq<WidgetV>,
            Seq<(Seq<char>, Seq<TokenV>)>,
            Seq<(Seq<char>, Seq<TokenV>)>,
            Seq<(Seq<char>, EventV)>,
            Seq<(Seq<char>, u64)>,
        ),
        ParseErrorV,
    >::Ok((Seq::empty(), seq![(prop, v)], Seq::empty(), Seq::empty(), g)));
}

/// The disambiguation rule.  A declaration whose token after the attribute
/// step is followed by the path separator parses as a toolkit widget; any
/// other declaration parses as a composed widget.  In both cases the last
/// path segment of an accepted declaration is not lowercase: a declaration
/// whose last segment starts with an ASCII lowercase letter never parses.
pub proof fn law_disambiguation(toks: Seq<TokenV>, pos: int, g: Seq<(Seq<char>, u64)>)
    ensures
        (sp_child(toks, pos, g) matches Result::Ok((w, p, pid, g2)) ==> {
            let p1 = sp_attributes(toks, pos)->Ok_0.1;
            &&& (p1 + 1 < toks.len() && toks[p1 + 1] == TokenV::Punct(Punct::ModSep) ==> w.widget
                matches EitherWidgetV::Gtk(_))
            &&& (!(p1 + 1 < toks.len() && toks[p1 + 1] == TokenV::Punct(Punct::ModSep))
                ==> w.widget matches EitherWidgetV::Relm(_))
            &&& !lower_start(w.typ.segments.last())
            &&& w.typ.segments.len() >= 1
        }),
{
    if sp_child(toks, pos, g) is Ok {
        let (attrs, p1) = sp_attributes(toks, pos)->Ok_0;
        if p1 + 1 < toks.len() && toks[p1 + 1] == TokenV::Punct(Punct::ModSep) {
            assert(sp_widget(toks, p1, sp_child_save_flag(toks, pos), g) is Ok ==> true);
        }
    }
}

/// The save flag that the attribute step hands to the toolkit parser.
pub open spec fn sp_child_save_flag(toks: Seq<TokenV>, pos: int) -> bool {
    match sp_attributes(toks, pos) {
        Result::Ok((attrs, p1)) => (match crate::parser::attr_last(attrs, "name"@) {
            Option::Some(Option::Some(n)) => true,
            _ => false,
        }),
        Result::Err(_) => false,
    }
}

/// Decimal renderings are distinct for distinct numbers.
pub proof fn lemma_dec_digits_len(n: nat)
    ensures
        dec_digits(n).len() >= 1,
        n >= 10 ==> dec_digits(n).len() >= 2,
    decreases n,
{
    if n >= 10 {
        lemma_dec_digits_len(n / 10);
    }
}

/// Decimal rendering is injective.
pub proof fn lemma_dec_digits_injective(a: nat, b: nat)
    requires
        dec_digits(a) == dec_digits(b),
    ensures
        a == b,
    decreases a + b,
{
    lemma_dec_digits_len(a);
    lemma_dec_digits_len(b);
    if a < 10 && b < 10 {
        assert(dec_digits(a) == seq![dec_digit_char(a)]);
        assert(dec_digits(b) == seq![dec_digit_char(b)]);
        assert(dec_digits(a)[0] == dec_digit_char(a));
        assert(dec_digits(b)[0] == dec_digit_char(b));
        assert(dec_digit_char(a) == dec_digit_char(b));
    } else if a < 10 {
        assert(dec_digits(b).len() >= 2);
        assert(dec_digits(a).len() == 1);
    } else if b < 10 {
        assert(dec_digits(a).len() >= 2);
        assert(dec_digits(b).len() == 1);
    } else {
        let da = dec_digits(a / 10);
        let db = dec_digits(b / 10);
        assert(dec_digits(a) == da.push(dec_digit_char(a % 10)));
        assert(dec_digits(b) == db.push(dec_digit_char(b % 10)));
        assert(dec_digits(a).last() == dec_digit_char(a % 10));
        assert(dec_digits(b).last() == dec_digit_char(b % 10));
        assert(dec_digit_char(a % 10) == dec_digit_char(b % 10));
        assert(a % 10 == b % 10);
        assert(dec_digits(a).drop_last() =~= da);
        assert(dec_digits(b).drop_last() =~= db);
        lemma_dec_digits_injective(a / 10, b / 10);
        assert(a == 10 * (a / 10) + a % 10);
        assert(b == 10 * (b / 10) + b % 10);
    }
}

/// Name uniqueness.  Within one session, two names drawn for the same base
/// are the base followed by counters that increase by one — so the two names
/// differ exactly in their numeric suffix.
pub proof fn law_name_uniqueness(g: Seq<(Seq<char>, u64)>, base: Seq<char>)
    requires
        forall|i: int, j: int| 0 <= i < j < g.len() ==> g[i].0 != g[j].0,
        next_count(g, base) < u64::MAX,
    ensures
        NameGen::spec_name(g, base) == base + dec_digits(next_count(g, base) as nat),
        NameGen::spec_name(bump_counts(g, base), base) == base + dec_digits(
            (next_count(g, base) + 1) as nat,
        ),
        NameGen::spec_name(g, base) != NameGen::spec_name(bump_counts(g, base), base),
{
    let n1 = next_count(g, base);
    let g2 = bump_counts(g, base);
    if has_key(g, base) {
        let i = key_index(g, base);
        assert(0 <= i < g.len() && g[i].0 == base);
        assert(g2 == g.update(i, (base, n1)));
        assert(g2[i].0 == base);
        assert(has_key(g2, base));
        let j = key_index(g2, base);
        assert(0 <= j < g2.len() && g2[j].0 == base);
        assert(j == i);
        assert(next_count(g2, base) == sat_inc(n1));
    } else {
        assert(g2 == g.push((base, 1u64)));
        assert(g2[g.len() as int].0 == base);
        assert(has_key(g2, base));
        let j = key_index(g2, base);
        assert(0 <= j < g2.len() && g2[j].0 == base);
        assert forall|k: int| 0 <= k < g.len() implies g2[k].0 != base by {
            assert(g2[k] == g[k]);
        }
        assert(j == g.len());
        assert(next_count(g2, base) == 2);
    }
    let s1 = base + dec_digits(n1 as nat);
    let s2 = base + dec_digits((n1 + 1) as nat);
    if s1 == s2 {
        assert(s1.subrange(base.len() as int, s1.len() as int) =~= dec_digits(n1 as nat));
        assert(s2.subrange(base.len() as int, s2.len() as int) =~= dec_digits((n1 + 1) as nat));
        lemma_dec_digits_len(n1 as nat);
        lemma_dec_digits_len((n1 + 1) as nat);
        if dec_digits(n1 as nat) == dec_digits((n1 + 1) as nat) {
            lemma_dec_digits_injective(n1 as nat, (n1 + 1) as nat);
        }
        assert(s1.len() == s2.len());
        assert(false);
    }
}

/// The event default-parameter law.  An event written without an explicit
/// parameter list gets one discarded parameter `_` under the toolkit default
/// (as in a toolkit widget's body) and no parameters under the composed
/// default (as in a composed widget's body).
pub proof fn law_event_default_parameters(toks: Seq<TokenV>, pos: int)
    requires
        !(0 <= pos < toks.len() && (toks[pos] matches TokenV::Group(Delim::Paren, _))),
    ensures
        sp_event(toks, pos, true) matches Result::Ok((e, p)) ==> e.params == seq![seq!['_']],
        sp_event(toks, pos, false) matches Result::Ok((e, p)) ==> e.params == Seq::<
            Seq<char>,
        >::empty(),
{
}

/// The foreign dispatch law.  `=> target@expr`, where `expr` neither starts
/// with `return` nor with a parenthesized group, sends the expression's span
/// to the named foreign widget without a return value.
pub proof fn law_foreign_dispatch(
    toks: Seq<TokenV>,
    pos: int,
    target: Seq<char>,
    one_param: bool,
)
    requires
        0 <= pos,
        pos + 3 < toks.len(),
        toks[pos] == TokenV::Punct(Punct::FatArrow),
        toks[pos + 1] == TokenV::Ident(target),
        toks[pos + 2] == TokenV::Punct(Punct::At),
        toks[pos + 3] != TokenV::Ident("return"@),
        !(toks[pos + 3] matches TokenV::Group(Delim::Paren, _)),
    ensures
        sp_event(toks, pos, one_param) matches Result::Ok((e, p)) && {
            let (v, vp) = sp_value(toks, pos + 3);
            sp_event(toks, pos, one_param)->Ok_0 == (
                EventV {
                    model_ident: Option::None,
                    params: if one_param {
                        seq![seq!['_']]
                    } else {
                        Seq::empty()
                    },
                    value: EventValueV::ForeignWidget(
                        target,
                        EventValueReturnV::WithoutReturn(v),
                    ),
                },
                vp,
            )
        },
{
    assert(toks[pos] != TokenV::Ident("with"@));
    assert(sp_event_value(toks, pos + 3) == Result::<
        (EventValueReturnV, int),
        ParseErrorV,
    >::Ok((EventValueReturnV::WithoutReturn(sp_value(toks, pos + 3).0), sp_value(
        toks,
        pos + 3,
    ).1)));
}

/// The paired-return law.  `=> (sendExpr, returnExpr)` sends the first
/// expression's span and returns the second's; the parenthesized group is
/// consumed whole.
pub proof fn law_paired_return(toks: Seq<TokenV>, pos: int, tts: Seq<TokenV>, one_param: bool)
    requires
        0 <= pos,
        pos + 1 < toks.len(),
        toks[pos] == TokenV::Punct(Punct::FatArrow),
        toks[pos + 1] == TokenV::Group(Delim::Paren, tts),
        !(pos + 2 < toks.len() && toks[pos + 2] == TokenV::Punct(Punct::At)),
        sp_value(tts, 0).1 < tts.len(),
        tts[sp_value(tts, 0).1] == TokenV::Punct(Punct::Comma),
    ensures
        sp_event(toks, pos, one_param) matches Result::Ok((e, p)) && {
            let (v1, q) = sp_value(tts, 0);
            let (v2, _q2) = sp_value(tts, q + 1);
            &&& sp_event(toks, pos, one_param)->Ok_0.0.value == EventValueV::CurrentWidget(
                EventValueReturnV::Return(v1, v2),
            )
            &&& sp_event(toks, pos, one_param)->Ok_0.1 == pos + 2
        },
{
    assert(toks[pos] != TokenV::Ident("with"@));
    assert(!(toks[pos + 1] matches TokenV::Ident(_)));
}

/// The child-property law.  An entry `name: { ... }` merges the brace
/// group's pairs into the enclosing widget's child properties and leaves its
/// ordinary properties untouched; an entry `name: expr` records the span
/// under `name` in the ordinary properties and leaves the child properties
/// untouched.
pub proof fn law_child_properties(
    toks: Seq<TokenV>,
    pos: int,
    name: Seq<char>,
    cprops: Seq<(Seq<char>, Seq<TokenV>)>,
    props: Seq<(Seq<char>, Seq<TokenV>)>,
)
    ensures
        (pos + 1 < toks.len() && (toks[pos + 1] matches TokenV::Group(Delim::Brace, _)))
            ==> (sp_value_or_child_props(toks, pos, name, cprops, props) matches Result::Ok(
            (cp2, pr2, p),
        ) ==> pr2 == props && cp2 == assoc_merge(
            cprops,
            sp_child_properties(toks[pos + 1]->Group_1, 0, Seq::empty())->Ok_0,
            0,
        )),
        !(pos + 1 < toks.len() && (toks[pos + 1] matches TokenV::Group(Delim::Brace, _))) ==> (
        sp_value_or_child_props(toks, pos, name, cprops, props) matches Result::Ok(
            (cp2, pr2, p),
        ) ==> cp2 == cprops && pr2 == assoc_set(props, name, sp_value(toks, pos + 1).0)),
{
}

/// The malformed-entry law.  Inside a widget body, an identifier followed by
/// none of `:`, `(`, `=>` aborts the parse with an error that names the
/// grammar position and carries the offending token — the token after the
/// identifier, or nothing when the body ends there.  Both widget kinds abort
/// alike.
pub proof fn law_malformed_entry(
    toks: Seq<TokenV>,
    pos: int,
    name: Seq<char>,
    children: Seq<WidgetV>,
    props: Seq<(Seq<char>, Seq<TokenV>)>,
    cprops: Seq<(Seq<char>, Seq<TokenV>)>,
    gtk_events: Seq<(Seq<char>, EventV)>,
    relm_events: Seq<(Seq<char>, Seq<EventV>)>,
    g: Seq<(Seq<char>, u64)>,
)
    requires
        0 <= pos < toks.len(),
        toks[pos] == TokenV::Ident(name),
        sp_try_name(toks, pos) is None,
        pos + 1 < toks.len() ==> {
            &&& toks[pos + 1] != TokenV::Punct(Punct::Colon)
            &&& toks[pos + 1] != TokenV::Punct(Punct::FatArrow)
            &&& !(toks[pos + 1] matches TokenV::Group(Delim::Paren, _))
        },
    ensures
        sp_gtk_body(toks, pos, children, props, cprops, gtk_events, g) == Result::<
            (
                Seq<WidgetV>,
                Seq<(Seq<char>, Seq<TokenV>)>,
                Seq<(Seq<char>, Seq<TokenV>)>,
                Seq<(Seq<char>, EventV)>,
                Seq<(Seq<char>, u64)>,
            ),
            ParseErrorV,
        >::Err(ParseErrorV::ExpectedPropertyOrEvent(sp_found(toks, pos + 1))),
        sp_relm_body(toks, pos, children, props, cprops, relm_events, g) == Result::<
            (
                Seq<WidgetV>,
                Seq<(Seq<char>, Seq<TokenV>)>,
                Seq<(Seq<char>, Seq<TokenV>)>,
                Seq<(Seq<char>, Seq<EventV>)>,
                Seq<(Seq<char>, u64)>,
            ),
            ParseErrorV,
        >::Err(ParseErrorV::ExpectedPropertyOrEvent(sp_found(toks, pos + 1))),
{
}

/// Well-formedness of a parsed widget: all three of its maps (properties,
/// child properties, signal bindings) have distinct keys, and so on for
/// every nested child.
pub open spec fn wv_wf(w: WidgetV) -> bool
    decreases w,
{
    &&& assoc_wf(w.properties)
    &&& assoc_wf(w.child_properties)
    &&& (match w.widget {
        EitherWidgetV::Gtk(gw) => assoc_wf(gw.events),
        EitherWidgetV::Relm(rw) => assoc_wf(rw.events),
    })
    &&& wvs_wf(w.children)
}

/// Well-formedness of a widget list.
pub open spec fn wvs_wf(ws: Seq<WidgetV>) -> bool
    decreases ws,
{
    if ws.len() == 0 {
        true
    } else {
        wv_wf(ws[0]) && wvs_wf(ws.subrange(1, ws.len() as int))
    }
}

/// A widget appended to a well-formed list keeps the list well-formed
/// exactly when it is well-formed itself.
pub proof fn lemma_wvs_wf_push(ws: Seq<WidgetV>, w: WidgetV)
    ensures
        wvs_wf(ws.push(w)) <==> (wvs_wf(ws) && wv_wf(w)),
    decreases ws,
{
    if ws.len() == 0 {
        let sub = ws.push(w).subrange(1, ws.push(w).len() as int);
        assert(ws.push(w)[0] == w);
        assert(sub =~= Seq::<WidgetV>::empty());
        assert(wvs_wf(sub));
        assert(wvs_wf(ws.push(w)) == (wv_wf(w) && wvs_wf(sub)));
    } else {
        let subp = ws.push(w).subrange(1, ws.push(w).len() as int);
        let sub = ws.subrange(1, ws.len() as int);
        assert(ws.push(w)[0] == ws[0]);
        assert(subp =~= sub.push(w));
        lemma_wvs_wf_push(sub, w);
        assert(wvs_wf(ws.push(w)) == (wv_wf(ws[0]) && wvs_wf(subp)));
        assert(wvs_wf(ws) == (wv_wf(ws[0]) && wvs_wf(sub)));
    }
}

/// The toolkit body fold keeps its accumulators well-formed.
proof fn lemma_gtk_body_wf(
    toks: Seq<TokenV>,
    pos: int,
    children: Seq<WidgetV>,
    props: Seq<(Seq<char>, Seq<TokenV>)>,
    cprops: Seq<(Seq<char>, Seq<TokenV>)>,
    events: Seq<(Seq<char>, EventV)>,
    g: Seq<(Seq<char>, u64)>,
)
    requires
        wvs_wf(children),
        assoc_wf(props),
        assoc_wf(cprops),
        assoc_wf(events),
        gen_wf(g),
    ensures
        sp_gtk_body(toks, pos, children, props, cprops, events, g) matches Result::Ok(
            (ch2, pr2, cp2, ev2, g2),
        ) ==> wvs_wf(ch2) && assoc_wf(pr2) && assoc_wf(cp2) && assoc_wf(ev2) && gen_wf(g2) && (
        forall|k: Seq<char>| #[trigger] next_count(g2, k) >= next_count(g, k)),
    decreases size_from(toks, pos), 5int,
{
    if !(0 <= pos < toks.len()) {
    } else if toks[pos] == TokenV::Punct(Punct::Pound) || (sp_try_name(toks, pos) is Some) {
        match sp_child(toks, pos, g) {
            Result::Ok((w, p, _pid, g2)) => {
                lemma_child_wf(toks, pos, g);
                lemma_wvs_wf_push(children, w);
                let p2 = if p < toks.len() && toks[p] == TokenV::Punct(Punct::Comma) {
                    p + 1
                } else {
                    p
                };
                if pos < p2 <= toks.len() {
                    lemma_size_from_mono(toks, pos, p2);
                    lemma_gtk_body_wf(toks, p2, children.push(w), props, cprops, events, g2);
                    if sp_gtk_body(toks, p2, children.push(w), props, cprops, events, g2) is Ok {
                        let gf = sp_gtk_body(
                            toks,
                            p2,
                            children.push(w),
                            props,
                            cprops,
                            events,
                            g2,
                        )->Ok_0.4;
                        assert forall|k: Seq<char>| #[trigger] next_count(gf, k) >= next_count(
                            g,
                            k,
                        ) by {
                            assert(next_count(gf, k) >= next_count(g2, k));
                            assert(next_count(g2, k) >= next_count(g, k));
                        }
                    }
                }
            },
            Result::Err(_) => {},
        }
    } else {
        match toks[pos] {
            TokenV::Ident(name) => {
                let p1 = pos + 1;
                if p1 >= toks.len() {
                } else if toks[p1] == TokenV::Punct(Punct::Colon) {
                    match sp_value_or_child_props(toks, p1, name, cprops, props) {
                        Result::Ok((cp2, pr2, p)) => {
                            lemma_value_or_child_props_wf(toks, p1, name, cprops, props);
                            let p2 = if p < toks.len() && toks[p] == TokenV::Punct(
                                Punct::Comma,
                            ) {
                                p + 1
                            } else {
                                p
                            };
                            if pos < p2 <= toks.len() {
                                lemma_size_from_mono(toks, pos, p2);
                                lemma_gtk_body_wf(toks, p2, children, pr2, cp2, events, g);
                            }
                        },
                        Result::Err(_) => {},
                    }
                } else if (toks[p1] matches TokenV::Group(Delim::Paren, _)) || toks[p1]
                    == TokenV::Punct(Punct::FatArrow) {
                    match sp_event(toks, p1, true) {
                        Result::Ok((e, p)) => {
                            crate::parser::lemma_assoc_set_wf(events, name, e);
                            let p2 = if p < toks.len() && toks[p] == TokenV::Punct(
                                Punct::Comma,
                            ) {
                                p + 1
                            } else {
                                p
                            };
                            if pos < p2 <= toks.len() {
                                lemma_size_from_mono(toks, pos, p2);
                                lemma_gtk_body_wf(
                                    toks,
                                    p2,
                                    children,
                                    props,
                                    cprops,
                                    assoc_set(events, name, e),
                                    g,
                                );
                            }
                        },
                        Result::Err(_) => {},
                    }
                }
            },
            _ => {},
        }
    }
}

/// The composed body fold keeps its accumulators well-formed.
proof fn lemma_relm_body_wf(
    toks: Seq<TokenV>,
    pos: int,
    children: Seq<WidgetV>,
    props: Seq<(Seq<char>, Seq<TokenV>)>,
    cprops: Seq<(Seq<char>, Seq<TokenV>)>,
    events: Seq<(Seq<char>, Seq<EventV>)>,
    g: Seq<(Seq<char>, u64)>,
)
    requires
        wvs_wf(children),
        assoc_wf(props),
        assoc_wf(cprops),
        assoc_wf(events),
        gen_wf(g),
    ensures
        sp_relm_body(toks, pos, children, props, cprops, events, g) matches Result::Ok(
            (ch2, pr2, cp2, ev2, g2),
        ) ==> wvs_wf(ch2) && assoc_wf(pr2) && assoc_wf(cp2) && assoc_wf(ev2) && gen_wf(g2) && (
        forall|k: Seq<char>| #[trigger] next_count(g2, k) >= next_count(g, k)),
    decreases size_from(toks, pos), 5int,
{
    if !(0 <= pos < toks.len()) {
    } else if toks[pos] == TokenV::Punct(Punct::Pound) || (sp_try_name(toks, pos) matches
        Option::Some((path, e)) && e < toks.len() && (toks[e] matches TokenV::Group(
        Delim::Brace,
        _,
    ))) {
        match sp_child(toks, pos, g) {
            Result::Ok((w, p, _pid, g2)) => {
                lemma_child_wf(toks, pos, g);
                lemma_wvs_wf_push(children, w);
                let p2 = if p < toks.len() && toks[p] == TokenV::Punct(Punct::Comma) {
                    p + 1
                } else {
                    p
                };
                if pos < p2 <= toks.len() {
                    lemma_size_from_mono(toks, pos, p2);
                    lemma_relm_body_wf(toks, p2, children.push(w), props, cprops, events, g2);
                    if sp_relm_body(toks, p2, children.push(w), props, cprops, events, g2) is Ok {
                        let gf = sp_relm_body(
                            toks,
                            p2,
                            children.push(w),
                            props,
                            cprops,
                            events,
                            g2,
                        )->Ok_0.4;
                        assert forall|k: Seq<char>| #[trigger] next_count(gf, k) >= next_count(
                            g,
                            k,
                        ) by {
                            assert(next_count(gf, k) >= next_count(g2, k));
                            assert(next_count(g2, k) >= next_count(g, k));
                        }
                    }
                }
            },
            Result::Err(_) => {},
        }
    } else {
        match toks[pos] {
            TokenV::Ident(name) => {
                let p1 = pos + 1;
                if p1 >= toks.len() {
                } else if toks[p1] == TokenV::Punct(Punct::Colon) {
                    match sp_value_or_child_props(toks, p1, name, cprops, props) {
                        Result::Ok((cp2, pr2, p)) => {
                            lemma_value_or_child_props_wf(toks, p1, name, cprops, props);
                            let p2 = if p < toks.len() && toks[p] == TokenV::Punct(
                                Punct::Comma,
                            ) {
                                p + 1
                            } else {
                                p
                            };
                            if pos < p2 <= toks.len() {
                                lemma_size_from_mono(toks, pos, p2);
                                lemma_relm_body_wf(toks, p2, children, pr2, cp2, events, g);
                            }
                        },
                        Result::Err(_) => {},
                    }
                } else if (toks[p1] matches TokenV::Group(Delim::Paren, _)) || toks[p1]
                    == TokenV::Punct(Punct::FatArrow) {
                    match sp_event(toks, p1, false) {
                        Result::Ok((e, p)) => {
                            crate::parser::lemma_assoc_append_wf(events, name, e);
                            let p2 = if p < toks.len() && toks[p] == TokenV::Punct(
                                Punct::Comma,
                            ) {
                                p + 1
                            } else {
                                p
                            };
                            if pos < p2 <= toks.len() {
                                lemma_size_from_mono(toks, pos, p2);
                                lemma_relm_body_wf(
                                    toks,
                                    p2,
                                    children,
                                    props,
                                    cprops,
                                    assoc_append(events, name, e),
                                    g,
                                );
                            }
                        },
                        Result::Err(_) => {},
                    }
                }
            },
            _ => {},
        }
    }
}

/// A property step keeps both maps well-formed.
proof fn lemma_value_or_child_props_wf(
    toks: Seq<TokenV>,
    pos: int,
    name: Seq<char>,
    cprops: Seq<(Seq<char>, Seq<TokenV>)>,
    props: Seq<(Seq<char>, Seq<TokenV>)>,
)
    requires
        assoc_wf(cprops),
        assoc_wf(props),
    ensures
        sp_value_or_child_props(toks, pos, name, cprops, props) matches Result::Ok(
            (cp2, pr2, p),
        ) ==> assoc_wf(cp2) && assoc_wf(pr2),
{
    if pos + 1 < toks.len() && (toks[pos + 1] matches TokenV::Group(Delim::Brace, _)) {
        match sp_child_properties(toks[pos + 1]->Group_1, 0, Seq::empty()) {
            Result::Ok(new_props) => {
                crate::parser::lemma_assoc_merge_wf(cprops, new_props, 0);
            },
            Result::Err(_) => {},
        }
    } else {
        crate::parser::lemma_assoc_set_wf(props, name, sp_value(toks, pos + 1).0);
    }
}

/// A parsed toolkit widget is well-formed, and parsing it only grows the
/// name counters.
proof fn lemma_widget_wf(toks: Seq<TokenV>, pos: int, save: bool, g: Seq<(Seq<char>, u64)>)
    requires
        gen_wf(g),
    ensures
        sp_widget(toks, pos, save, g) matches Result::Ok((w, p, g2)) ==> wv_wf(w) && gen_wf(g2)
            && (forall|k: Seq<char>| #[trigger] next_count(g2, k) >= next_count(g, k)),
    decreases size_from(toks, pos), 3int,
{
    match sp_try_name(toks, pos) {
        Option::None => {},
        Option::Some((path, p1)) => {
            if 0 <= pos < p1 <= toks.len() {
                let p2 = if p1 < toks.len() && (toks[p1] matches TokenV::Group(
                    Delim::Paren,
                    _,
                )) {
                    p1 + 1
                } else {
                    p1
                };
                if p2 < toks.len() && (toks[p2] matches TokenV::Group(Delim::Brace, _)) {
                    let body = toks[p2]->Group_1;
                    lemma_size_from_mono(toks, pos, p2);
                    lemma_group_size(toks, p2, Delim::Brace, body);
                    lemma_gtk_body_wf(
                        body,
                        0,
                        Seq::empty(),
                        Seq::empty(),
                        Seq::empty(),
                        Seq::empty(),
                        g,
                    );
                    let r = sp_gtk_body(
                        body,
                        0,
                        Seq::empty(),
                        Seq::empty(),
                        Seq::empty(),
                        Seq::empty(),
                        g,
                    );
                    if r is Ok {
                        let gb = r->Ok_0.4;
                        let base = lower_seq(path.segments.last());
                        lemma_bump_preserves(gb, base);
                        assert forall|k: Seq<char>| #[trigger] next_count(
                            bump_counts(gb, base),
                            k,
                        ) >= next_count(g, k) by {
                            assert(next_count(bump_counts(gb, base), k) >= next_count(gb, k));
                            assert(next_count(gb, k) >= next_count(g, k));
                        }
                    }
                }
            }
        },
    }
}

/// A parsed composed widget is well-formed, and parsing it only grows the
/// name counters.
proof fn lemma_relm_widget_wf(toks: Seq<TokenV>, pos: int, g: Seq<(Seq<char>, u64)>)
    requires
        gen_wf(g),
    ensures
        sp_relm_widget(toks, pos, g) matches Result::Ok((w, p, g2)) ==> wv_wf(w) && gen_wf(g2)
            && (forall|k: Seq<char>| #[trigger] next_count(g2, k) >= next_count(g, k)),
    decreases size_from(toks, pos), 3int,
{
    match sp_try_name(toks, pos) {
        Option::None => {},
        Option::Some((path, p1)) => {
            if 0 <= pos < p1 <= toks.len() {
                let p2 = if p1 < toks.len() && (toks[p1] matches TokenV::Group(
                    Delim::Paren,
                    _,
                )) {
                    p1 + 1
                } else {
                    p1
                };
                if p2 < toks.len() && (toks[p2] matches TokenV::Group(Delim::Brace, _)) {
                    let body = toks[p2]->Group_1;
                    lemma_size_from_mono(toks, pos, p2);
                    lemma_group_size(toks, p2, Delim::Brace, body);
                    lemma_relm_body_wf(
                        body,
                        0,
                        Seq::empty(),
                        Seq::empty(),
                        Seq::empty(),
                        Seq::empty(),
                        g,
                    );
                    let r = sp_relm_body(
                        body,
                        0,
                        Seq::empty(),
                        Seq::empty(),
                        Seq::empty(),
                        Seq::empty(),
                        g,
                    );
                    if r is Ok {
                        let gb = r->Ok_0.4;
                        let base = lower_seq(path.segments.last());
                        lemma_bump_preserves(gb, base);
                        assert forall|k: Seq<char>| #[trigger] next_count(
                            bump_counts(gb, base),
                            k,
                        ) >= next_count(g, k) by {
                            assert(next_count(bump_counts(gb, base), k) >= next_count(gb, k));
                            assert(next_count(gb, k) >= next_count(g, k));
                        }
                    }
                } else {
                    lemma_bump_preserves(g, lower_seq(path.segments.last()));
                }
            }
        },
    }
}

/// A parsed declaration is well-formed, and parsing it only grows the name
/// counters.
proof fn lemma_child_wf(toks: Seq<TokenV>, pos: int, g: Seq<(Seq<char>, u64)>)
    requires
        gen_wf(g),
    ensures
        sp_child(toks, pos, g) matches Result::Ok((w, p, pid, g2)) ==> wv_wf(w) && gen_wf(g2) && (
        forall|k: Seq<char>| #[trigger] next_count(g2, k) >= next_count(g, k)),
    decreases size_from(toks, pos), 4int,
{
    match sp_attributes(toks, pos) {
        Result::Err(_) => {},
        Result::Ok((attrs, p1)) => {
            if pos <= p1 <= toks.len() {
                if 0 <= pos {
                    lemma_size_from_mono(toks, pos, p1);
                }
                if p1 + 1 < toks.len() && toks[p1 + 1] == TokenV::Punct(Punct::ModSep) {
                    lemma_widget_wf(toks, p1, sp_child_save_flag(toks, pos), g);
                } else {
                    lemma_relm_widget_wf(toks, p1, g);
                }
            }
        },
    }
}

/// The per-widget map invariant.  Every widget tree that a parse returns is
/// well-formed: in each node, the property names, the child-property names
/// and the signal names are each distinct, down through all children.
pub proof fn law_parsed_widget_well_formed(toks: Seq<TokenV>, g: Seq<(Seq<char>, u64)>)
    requires
        gen_wf(g),
    ensures
        crate::parser::sp_parse(toks, g) matches Result::Ok((w, g2)) ==> wv_wf(w),
{
    lemma_child_wf(toks, 0, g);
}

/// A whole parse only grows the name counters and keeps the generator's keys
/// distinct: names drawn later in one session never reuse an earlier counter.
pub proof fn law_session_counters_grow(toks: Seq<TokenV>, g: Seq<(Seq<char>, u64)>)
    requires
        gen_wf(g),
    ensures
        crate::parser::sp_parse(toks, g) matches Result::Ok((w, g2)) ==> gen_wf(g2) && (forall|
            k: Seq<char>,
        | #[trigger] next_count(g2, k) >= next_count(g, k)),
{
    lemma_child_wf(toks, 0, g);
}

/// Sibling-name distinctness.  Draw one name for `base` from state `g`; let
/// `g_mid` be any later state of the same session (so no counter went down
/// from the state right after that draw).  The name then drawn for `base`
/// from `g_mid` — the next sibling of the same type — differs from the
/// first, as long as the counter has not reached its cap.
pub proof fn law_sibling_names_distinct(
    g: Seq<(Seq<char>, u64)>,
    g_mid: Seq<(Seq<char>, u64)>,
    base: Seq<char>,
)
    requires
        gen_wf(g),
        next_count(g, base) < u64::MAX,
        forall|k: Seq<char>| #[trigger] next_count(g_mid, k) >= next_count(
            bump_counts(g, base),
            k,
        ),
    ensures
        NameGen::spec_name(g_mid, base) != NameGen::spec_name(g, base),
{
    lemma_bump_preserves(g, base);
    let n1 = next_count(g, base);
    assert(next_count(bump_counts(g, base), base) == n1 + 1);
    let n2 = next_count(g_mid, base);
    assert(n2 >= n1 + 1);
    lemma_spec_name_distinct(base, n1, n2);
}


/// Distinct keys, stated of the generator's model.
pub open spec fn gen_wf(g: Seq<(Seq<char>, u64)>) -> bool {
    forall|i: int, j: int| 0 <= i < j < g.len() ==> g[i].0 != g[j].0
}

/// One draw: the drawn base's counter moves up by one (saturating), no
/// counter moves down, and the keys stay distinct.
pub proof fn lemma_bump_preserves(g: Seq<(Seq<char>, u64)>, key: Seq<char>)
    requires
        gen_wf(g),
    ensures
        gen_wf(bump_counts(g, key)),
        next_count(bump_counts(g, key), key) == sat_inc(next_count(g, key)),
        forall|k: Seq<char>| #[trigger] next_count(bump_counts(g, key), k) >= next_count(g, k),
{
    let g2 = bump_counts(g, key);
    if has_key(g, key) {
        let i = key_index(g, key);
        assert(0 <= i < g.len() && g[i].0 == key);
        assert(g2 == g.update(i, (key, sat_inc(g[i].1))));
        assert(forall|a: int| 0 <= a < g.len() ==> g2[a].0 == g[a].0);
        assert(gen_wf(g2));
        assert forall|k: Seq<char>| #[trigger] next_count(g2, k) >= next_count(g, k) by {
            lemma_next_count_entrywise(g, g2, i, key, k);
        }
        assert(g2[i].0 == key);
        assert(has_key(g2, key));
        let j = key_index(g2, key);
        assert(0 <= j < g2.len() && g2[j].0 == key);
        assert(j == i);
    } else {
        assert(g2 == g.push((key, 1u64)));
        assert(forall|a: int| 0 <= a < g.len() ==> g2[a] == g[a]);
        assert(g2[g.len() as int].0 == key);
        assert forall|i: int, j: int| 0 <= i < j < g2.len() implies g2[i].0 != g2[j].0 by {
            if j < g.len() {
            } else {
                assert(g2[j].0 == key);
                assert(!(exists|a: int| 0 <= a < g.len() && g[a].0 == key));
            }
        }
        assert(has_key(g2, key));
        let j = key_index(g2, key);
        assert(0 <= j < g2.len() && g2[j].0 == key);
        assert forall|a: int| 0 <= a < g.len() implies g2[a].0 != key by {}
        assert(j == g.len());
        assert(next_count(g2, key) == sat_inc(1u64));
        assert(next_count(g, key) == 1u64);
        assert forall|k: Seq<char>| #[trigger] next_count(g2, k) >= next_count(g, k) by {
            if k != key {
                if has_key(g, k) {
                    let a = key_index(g, k);
                    assert(0 <= a < g.len() && g[a].0 == k);
                    assert(g2[a].0 == k);
                    assert(has_key(g2, k));
                    let b = key_index(g2, k);
                    assert(0 <= b < g2.len() && g2[b].0 == k);
                    assert(b != g.len());
                    assert(b == a);
                } else {
                    if has_key(g2, k) {
                        let b = key_index(g2, k);
                        assert(0 <= b < g2.len() && g2[b].0 == k);
                        assert(b == g.len());
                        assert(false);
                    }
                }
            }
        }
    }
}

/// Entry-wise comparison after an update that keeps the key at `i`.
proof fn lemma_next_count_entrywise(
    g: Seq<(Seq<char>, u64)>,
    g2: Seq<(Seq<char>, u64)>,
    i: int,
    key: Seq<char>,
    k: Seq<char>,
)
    requires
        gen_wf(g),
        gen_wf(g2),
        0 <= i < g.len(),
        g[i].0 == key,
        g2 == g.update(i, (key, sat_inc(g[i].1))),
    ensures
        next_count(g2, k) >= next_count(g, k),
{
    if k == key {
        assert(g2[i].0 == key);
        assert(has_key(g2, key));
        let j = key_index(g2, key);
        assert(0 <= j < g2.len() && g2[j].0 == key);
        assert(j == i);
        assert(has_key(g, key));
        let j0 = key_index(g, key);
        assert(0 <= j0 < g.len() && g[j0].0 == key);
        assert(j0 == i);
    } else {
        if has_key(g, k) {
            let a = key_index(g, k);
            assert(0 <= a < g.len() && g[a].0 == k);
            assert(a != i);
            assert(g2[a].0 == k && g2[a].1 == g[a].1);
            assert(has_key(g2, k));
            let b = key_index(g2, k);
            assert(0 <= b < g2.len() && g2[b].0 == k);
            assert(b == a);
        } else {
            if has_key(g2, k) {
                let b = key_index(g2, k);
                assert(0 <= b < g2.len() && g2[b].0 == k);
                assert(g[b].0 == (if b == i { key } else { g2[b].0 }));
                assert(false);
            }
        }
    }
}

/// Two names for one base, drawn at different counter values, differ.
pub proof fn lemma_spec_name_distinct(base: Seq<char>, n1: u64, n2: u64)
    requires
        n1 != n2,
    ensures
        base + dec_digits(n1 as nat) != base + dec_digits(n2 as nat),
{
    let s1 = base + dec_digits(n1 as nat);
    let s2 = base + dec_digits(n2 as nat);
    if s1 == s2 {
        assert(s1.subrange(base.len() as int, s1.len() as int) =~= dec_digits(n1 as nat));
        assert(s2.subrange(base.len() as int, s2.len() as int) =~= dec_digits(n2 as nat));
        if dec_digits(n1 as nat) == dec_digits(n2 as nat) {
            lemma_dec_digits_injective(n1 as nat, n2 as nat);
        }
        assert(false);
    }
}

} // verus!
