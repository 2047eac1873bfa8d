//! The intermediate representation that parsing produces: a tree of widgets
//! with properties, child-placement properties, constructor parameters and
//! signal bindings.  Opaque expressions are verbatim token spans.

use vstd::prelude::*;
use crate::tokens::Token;
use crate::tokens::TokenV;
use crate::tokens::toks_view;
use crate::names::NameGen;
use crate::names::bump_counts;
use crate::names::lower_seq;
use crate::names::strs_view;

verus! {

/// A qualified type path: the segment identifiers, and the verbatim token
/// span the path was written as (which may include generic arguments).
#[derive(Debug, PartialEq)]
pub struct WidgetPath {
    pub segments: Vec<String>,
    pub span: Vec<Token>,
}

/// Model of a qualified type path.
pub struct WidgetPathV {
    pub segments: Seq<Seq<char>>,
    pub span: Seq<TokenV>,
}

impl View for WidgetPath {
    type V = WidgetPathV;

    open spec fn view(&self) -> WidgetPathV {
        WidgetPathV { segments: strs_view(self.segments@), span: toks_view(self.span@) }
    }
}

/// What an event handler evaluates: an expression to send as a message,
/// possibly doubling as or paired with the native handler's return value.
#[derive(Debug, PartialEq)]
pub enum EventValueReturn {
    /// Send the expression's value and also return it from the native handler.
    CallReturn(Vec<Token>),
    /// Send the first expression's value; return the second's.
    Return(Vec<Token>, Vec<Token>),
    /// Send the expression's value; return nothing.
    WithoutReturn(Vec<Token>),
}

/// Model of an [`EventValueReturn`].
pub enum EventValueReturnV {
    CallReturn(Seq<TokenV>),
    Return(Seq<TokenV>, Seq<TokenV>),
    WithoutReturn(Seq<TokenV>),
}

impl View for EventValueReturn {
    type V = EventValueReturnV;

    open spec fn view(&self) -> EventValueReturnV {
        match self {
            EventValueReturn::CallReturn(v) => EventValueReturnV::CallReturn(toks_view(v@)),
            EventValueReturn::Return(s, r) => EventValueReturnV::Return(
                toks_view(s@),
                toks_view(r@),
            ),
            EventValueReturn::WithoutReturn(v) => EventValueReturnV::WithoutReturn(toks_view(v@)),
        }
    }
}

/// Where an event's message goes: to the widget the handler is declared on,
/// or to another widget named in the declaration.
#[derive(Debug, PartialEq)]
pub enum EventValue {
    CurrentWidget(EventValueReturn),
    ForeignWidget(String, EventValueReturn),
}

/// Model of an [`EventValue`].
pub enum EventValueV {
    CurrentWidget(EventValueReturnV),
    ForeignWidget(Seq<char>, EventValueReturnV),
}

impl View for EventValue {
    type V = EventValueV;

    open spec fn view(&self) -> EventValueV {
        match self {
            EventValue::CurrentWidget(v) => EventValueV::CurrentWidget(v@),
            EventValue::ForeignWidget(n, v) => EventValueV::ForeignWidget(n@, v@),
        }
    }
}

/// View of an optional string.
pub open spec fn opt_str_view(o: Option<String>) -> Option<Seq<char>> {
    match o {
        Option::Some(s) => Option::Some(s@),
        Option::None => Option::None,
    }
}

/// View of an optional, optionally typed container marker.
pub open spec fn opt_opt_str_view(o: Option<Option<String>>) -> Option<Option<Seq<char>>> {
    match o {
        Option::Some(s) => Option::Some(opt_str_view(s)),
        Option::None => Option::None,
    }
}

/// One signal binding: the bound payload parameters, an optional alias for
/// the enclosing widget's model, and the effect to perform.
#[derive(Debug, PartialEq)]
pub struct Event {
    pub model_ident: Option<String>,
    pub params: Vec<String>,
    pub value: EventValue,
}

/// Model of an [`Event`].
pub struct EventV {
    pub model_ident: Option<Seq<char>>,
    pub params: Seq<Seq<char>>,
    pub value: EventValueV,
}

impl View for Event {
    type V = EventV;

    open spec fn view(&self) -> EventV {
        EventV {
            model_ident: opt_str_view(self.model_ident),
            params: strs_view(self.params@),
            value: self.value@,
        }
    }
}

/// The default event for a toolkit widget: one discarded parameter, the
/// message sent to the current widget, an empty expression.
pub open spec fn default_event_v() -> EventV {
    EventV {
        model_ident: Option::None,
        params: seq![seq!['_']],
        value: EventValueV::CurrentWidget(EventValueReturnV::WithoutReturn(Seq::empty())),
    }
}

impl Event {
    /// The default binding: one discarded parameter and an empty message
    /// expression sent to the current widget.
    pub fn new() -> (e: Event)
        ensures
            e@ == default_event_v(),
    {
        let mut params: Vec<String> = Vec::new();
        params.push(String::from_str("_"));
        let e = Event {
            model_ident: Option::None,
            params,
            value: EventValue::CurrentWidget(EventValueReturn::WithoutReturn(Vec::new())),
        };
        proof {
            reveal_strlit("_");
            assert("_"@ =~= seq!['_']);
            assert(e@.params =~= seq![seq!['_']]);
            assert(toks_view(Seq::<Token>::empty()) =~= Seq::<TokenV>::empty());
            assert(e@ == default_event_v());
        }
        e
    }
}

/// View of an event list.
pub open spec fn events_view(es: Seq<Event>) -> Seq<EventV> {
    Seq::new(es.len(), |i: int| es[i]@)
}

/// View of a name-to-span association list.
pub open spec fn props_view(ps: Seq<(String, Vec<Token>)>) -> Seq<(Seq<char>, Seq<TokenV>)> {
    Seq::new(ps.len(), |i: int| (ps[i].0@, toks_view(ps[i].1@)))
}

/// View of a signal-to-event association list.
pub open spec fn gtk_events_view(es: Seq<(String, Event)>) -> Seq<(Seq<char>, EventV)> {
    Seq::new(es.len(), |i: int| (es[i].0@, es[i].1@))
}

/// View of a signal-to-event-list association list.
pub open spec fn relm_events_view(es: Seq<(String, Vec<Event>)>) -> Seq<
    (Seq<char>, Seq<EventV>),
> {
    Seq::new(es.len(), |i: int| (es[i].0@, events_view(es[i].1@)))
}

/// A toolkit-backed widget: each signal name carries exactly one binding;
/// `save` marks it for retention as an addressable field.
#[derive(Debug, PartialEq)]
pub struct GtkWidget {
    pub events: Vec<(String, Event)>,
    pub relm_name: Option<String>,
    pub save: bool,
}

/// Model of a [`GtkWidget`].
pub struct GtkWidgetV {
    pub events: Seq<(Seq<char>, EventV)>,
    pub relm_name: Option<Seq<char>>,
    pub save: bool,
}

impl View for GtkWidget {
    type V = GtkWidgetV;

    open spec fn view(&self) -> GtkWidgetV {
        GtkWidgetV {
            events: gtk_events_view(self.events@),
            relm_name: opt_str_view(self.relm_name),
            save: self.save,
        }
    }
}

impl GtkWidget {
    /// A toolkit widget with no bindings, not marked for retention.
    pub fn new() -> (w: GtkWidget)
        ensures
            w@.events == Seq::<(Seq<char>, EventV)>::empty(),
            w@.relm_name is None,
            w@.save == false,
    {
        let w = GtkWidget { events: Vec::new(), relm_name: Option::None, save: false };
        proof {
            assert(w@.events =~= Seq::<(Seq<char>, EventV)>::empty());
        }
        w
    }
}

/// A composed widget: each signal name carries an ordered list of bindings.
#[derive(Debug, PartialEq)]
pub struct RelmWidget {
    pub events: Vec<(String, Vec<Event>)>,
}

/// Model of a [`RelmWidget`].
pub struct RelmWidgetV {
    pub events: Seq<(Seq<char>, Seq<EventV>)>,
}

impl View for RelmWidget {
    type V = RelmWidgetV;

    open spec fn view(&self) -> RelmWidgetV {
        RelmWidgetV { events: relm_events_view(self.events@) }
    }
}

impl RelmWidget {
    /// A composed widget with no bindings.
    pub fn new() -> (w: RelmWidget)
        ensures
            w@.events == Seq::<(Seq<char>, Seq<EventV>)>::empty(),
    {
        let w = RelmWidget { events: Vec::new() };
        proof {
            assert(w@.events =~= Seq::<(Seq<char>, Seq<EventV>)>::empty());
        }
        w
    }
}

/// A widget's kind: toolkit-backed or composed.
#[derive(Debug, PartialEq)]
pub enum EitherWidget {
    Gtk(GtkWidget),
    Relm(RelmWidget),
}

/// Model of an [`EitherWidget`].
pub enum EitherWidgetV {
    Gtk(GtkWidgetV),
    Relm(RelmWidgetV),
}

impl View for EitherWidget {
    type V = EitherWidgetV;

    open spec fn view(&self) -> EitherWidgetV {
        match self {
            EitherWidget::Gtk(w) => EitherWidgetV::Gtk(w@),
            EitherWidget::Relm(w) => EitherWidgetV::Relm(w@),
        }
    }
}

/// One node of the view tree.
#[derive(Debug, PartialEq)]
pub struct Widget {
    pub child_properties: Vec<(String, Vec<Token>)>,
    pub children: Vec<Widget>,
    pub container_type: Option<Option<String>>,
    pub init_parameters: Vec<Vec<Token>>,
    pub name: String,
    pub parent_id: Option<String>,
    pub properties: Vec<(String, Vec<Token>)>,
    pub typ: WidgetPath,
    pub widget: EitherWidget,
}

/// Model of a [`Widget`].
pub struct WidgetV {
    pub child_properties: Seq<(Seq<char>, Seq<TokenV>)>,
    pub children: Seq<WidgetV>,
    pub container_type: Option<Option<Seq<char>>>,
    pub init_parameters: Seq<Seq<TokenV>>,
    pub name: Seq<char>,
    pub parent_id: Option<Seq<char>>,
    pub properties: Seq<(Seq<char>, Seq<TokenV>)>,
    pub typ: WidgetPathV,
    pub widget: EitherWidgetV,
}

/// View of a list of opaque expression spans.
pub open spec fn spans_view(vs: Seq<Vec<Token>>) -> Seq<Seq<TokenV>> {
    Seq::new(vs.len(), |i: int| toks_view(vs[i]@))
}

/// Appending one span appends its model.
pub proof fn lemma_spans_view_push(s: Seq<Vec<Token>>, v: Vec<Token>)
    ensures
        spans_view(s.push(v)) == spans_view(s).push(toks_view(v@)),
{
    assert forall|i: int| 0 <= i < s.len() + 1 implies spans_view(s.push(v))[i] == spans_view(
        s,
    ).push(toks_view(v@))[i] by {
        if i < s.len() {
            assert(s.push(v)[i] == s[i]);
        } else {
            assert(s.push(v)[i] == v);
        }
    }
    assert(spans_view(s.push(v)) =~= spans_view(s).push(toks_view(v@)));
}

/// The model of a widget.
pub open spec fn widget_view(w: Widget) -> WidgetV
    decreases w,
{
    WidgetV {
        child_properties: props_view(w.child_properties@),
        children: widgets_view(w.children@),
        container_type: opt_opt_str_view(w.container_type),
        init_parameters: spans_view(w.init_parameters@),
        name: w.name@,
        parent_id: opt_str_view(w.parent_id),
        properties: props_view(w.properties@),
        typ: w.typ@,
        widget: w.widget@,
    }
}

/// The model of a widget list.
pub open spec fn widgets_view(ws: Seq<Widget>) -> Seq<WidgetV>
    decreases ws,
{
    if ws.len() == 0 {
        Seq::empty()
    } else {
        seq![widget_view(ws[0])] + widgets_view(ws.subrange(1, ws.len() as int))
    }
}

impl View for Widget {
    type V = WidgetV;

    open spec fn view(&self) -> WidgetV {
        widget_view(*self)
    }
}

/// `widgets_view` maps the sequence pointwise.
pub proof fn lemma_widgets_view(ws: Seq<Widget>)
    ensures
        widgets_view(ws).len() == ws.len(),
        forall|i: int| 0 <= i < ws.len() ==> widgets_view(ws)[i] == widget_view(#[trigger] ws[i]),
    decreases ws,
{
    if ws.len() > 0 {
        let sub = ws.subrange(1, ws.len() as int);
        lemma_widgets_view(sub);
        assert forall|i: int| 0 <= i < ws.len() implies widgets_view(ws)[i] == widget_view(
            #[trigger] ws[i],
        ) by {
            if i > 0 {
                assert(sub[i - 1] == ws[i]);
                assert(widgets_view(ws)[i] == widgets_view(sub)[i - 1]);
            }
        }
    }
}

/// Appending one widget appends its model.
pub proof fn lemma_widgets_view_push(ws: Seq<Widget>, w: Widget)
    ensures
        widgets_view(ws.push(w)) == widgets_view(ws).push(widget_view(w)),
{
    lemma_widgets_view(ws);
    lemma_widgets_view(ws.push(w));
    assert forall|i: int| 0 <= i < ws.len() + 1 implies widgets_view(ws.push(w))[i]
        == widgets_view(ws).push(widget_view(w))[i] by {
        if i < ws.len() {
            assert(ws.push(w)[i] == ws[i]);
        } else {
            assert(ws.push(w)[i] == w);
        }
    }
    assert(widgets_view(ws.push(w)) =~= widgets_view(ws).push(widget_view(w)));
}

impl Widget {
    /// Build a toolkit widget node.  Its default name is drawn from the name
    /// generator; the container marker and explicit parent are unset.
    pub fn new_gtk(
        widget: GtkWidget,
        typ: WidgetPath,
        init_parameters: Vec<Vec<Token>>,
        children: Vec<Widget>,
        properties: Vec<(String, Vec<Token>)>,
        child_properties: Vec<(String, Vec<Token>)>,
        gen: NameGen,
    ) -> (r: (Widget, NameGen))
        requires
            gen.wf(),
            typ.segments@.len() > 0,
        ensures
            ({
                let base = lower_seq(typ@.segments.last());
                &&& r.0@ == (WidgetV {
                    child_properties: props_view(child_properties@),
                    children: widgets_view(children@),
                    container_type: Option::None,
                    init_parameters: spans_view(init_parameters@),
                    name: NameGen::spec_name(gen@, base),
                    parent_id: Option::None,
                    properties: props_view(properties@),
                    typ: typ@,
                    widget: EitherWidgetV::Gtk(widget@),
                })
                &&& r.1@ == bump_counts(gen@, base)
                &&& r.1.wf()
            }),
    {
        let (name, gen) = gen.generate(&typ.segments);
        let w = Widget {
            child_properties,
            children,
            container_type: Option::None,
            init_parameters,
            name,
            parent_id: Option::None,
            properties,
            typ,
            widget: EitherWidget::Gtk(widget),
        };
        (w, gen)
    }

    /// Build a composed widget node.  As for toolkit widgets, but the default
    /// name gets a leading underscore: composed widgets are kept only so that
    /// their channel outlives construction, and the underscore hides the
    /// unused-variable warning in generated code.
    pub fn new_relm(
        widget: RelmWidget,
        typ: WidgetPath,
        init_parameters: Vec<Vec<Token>>,
        children: Vec<Widget>,
        properties: Vec<(String, Vec<Token>)>,
        child_properties: Vec<(String, Vec<Token>)>,
        gen: NameGen,
    ) -> (r: (Widget, NameGen))
        requires
            gen.wf(),
            typ.segments@.len() > 0,
        ensures
            ({
                let base = lower_seq(typ@.segments.last());
                &&& r.0@ == (WidgetV {
                    child_properties: props_view(child_properties@),
                    children: widgets_view(children@),
                    container_type: Option::None,
                    init_parameters: spans_view(init_parameters@),
                    name: seq!['_'] + NameGen::spec_name(gen@, base),
                    parent_id: Option::None,
                    properties: props_view(properties@),
                    typ: typ@,
                    widget: EitherWidgetV::Relm(widget@),
                })
                &&& r.1@ == bump_counts(gen@, base)
                &&& r.1.wf()
            }),
    {
        let (name, gen) = gen.generate(&typ.segments);
        let mut prefixed = String::from_str("_");
        prefixed.append(name.as_str());
        proof {
            reveal_strlit("_");
            assert("_"@ =~= seq!['_']);
        }
        let w = Widget {
            child_properties,
            children,
            container_type: Option::None,
            init_parameters,
            name: prefixed,
            parent_id: Option::None,
            properties,
            typ,
            widget: EitherWidget::Relm(widget),
        };
        (w, gen)
    }
}

} // verus!
