//! End-to-end tests of the view parser on hand-built token streams.

use relm_view::tokens::{Delim, Punct, Token};
use relm_view::ir::{Event, EventValue, EventValueReturn, EitherWidget, GtkWidget, RelmWidget, Widget};
use relm_view::names::NameGen;
use relm_view::parser::{parse, view_source, ParseError};

fn id(s: &str) -> Token {
    Token::Ident(s.to_string())
}

fn lit(s: &str) -> Token {
    Token::LitStr(s.to_string())
}

fn p(p: Punct) -> Token {
    Token::Punct(p)
}

fn paren(ts: Vec<Token>) -> Token {
    Token::Group(Delim::Paren, ts)
}

fn bracket(ts: Vec<Token>) -> Token {
    Token::Group(Delim::Bracket, ts)
}

fn brace(ts: Vec<Token>) -> Token {
    Token::Group(Delim::Brace, ts)
}

fn parse_ok(tokens: Vec<Token>) -> Widget {
    let (w, _gen) = parse(&tokens, NameGen::new()).expect("the declaration should parse");
    w
}

fn parse_err(tokens: Vec<Token>) -> ParseError {
    match parse(&tokens, NameGen::new()) {
        Ok(_) => panic!("the declaration should not parse"),
        Err(e) => e,
    }
}

/// The round trip: `gtk::Window { gtk::Button { label: "Hi", clicked => Quit } }`.
#[test]
fn round_trip_window_button() {
    let tokens = vec![
        id("gtk"),
        p(Punct::ModSep),
        id("Window"),
        brace(vec![
            id("gtk"),
            p(Punct::ModSep),
            id("Button"),
            brace(vec![
                id("label"),
                p(Punct::Colon),
                lit("Hi"),
                p(Punct::Comma),
                id("clicked"),
                p(Punct::FatArrow),
                id("Quit"),
            ]),
        ]),
    ];
    let w = parse_ok(tokens);
    assert_eq!(w.name, "window1".to_string());
    assert!(matches!(w.widget, EitherWidget::Gtk(_)));
    assert_eq!(w.typ.segments, vec!["gtk".to_string(), "Window".to_string()]);
    assert_eq!(w.children.len(), 1);
    let button = &w.children[0];
    assert_eq!(button.name, "button1".to_string());
    assert!(matches!(button.widget, EitherWidget::Gtk(_)));
    assert_eq!(button.properties, vec![("label".to_string(), vec![lit("Hi")])]);
    match &button.widget {
        EitherWidget::Gtk(gtk) => {
            assert_eq!(
                gtk.events,
                vec![(
                    "clicked".to_string(),
                    Event {
                        model_ident: None,
                        params: vec!["_".to_string()],
                        value: EventValue::CurrentWidget(EventValueReturn::WithoutReturn(vec![id(
                            "Quit"
                        )])),
                    }
                )]
            );
        },
        EitherWidget::Relm(_) => panic!("the button is a toolkit widget"),
    }
}

/// A single declaration `gtk::Window(a, b) { title: c }` keeps its
/// constructor parameters and its one property, and has no children.
#[test]
fn single_widget_with_parameters() {
    let tokens = vec![
        id("gtk"),
        p(Punct::ModSep),
        id("Window"),
        paren(vec![id("a"), p(Punct::Comma), id("b")]),
        brace(vec![id("title"), p(Punct::Colon), id("c")]),
    ];
    let w = parse_ok(tokens);
    assert_eq!(w.init_parameters, vec![vec![id("a")], vec![id("b")]]);
    assert_eq!(w.properties, vec![("title".to_string(), vec![id("c")])]);
    assert!(w.children.is_empty());
    assert!(w.child_properties.is_empty());
}

/// Empty parentheses yield one empty constructor parameter: splitting an
/// empty token sequence on commas gives one empty span.
#[test]
fn empty_parameter_list_is_one_empty_span() {
    let tokens = vec![id("Comp"), paren(vec![]), brace(vec![])];
    let w = parse_ok(tokens);
    assert_eq!(w.init_parameters, vec![Vec::<Token>::new()]);
}

/// A multi-segment path is a toolkit widget; a single capitalized identifier
/// is a composed widget; a lowercase identifier is rejected.
#[test]
fn disambiguation_by_path_shape() {
    let w = parse_ok(vec![id("gtk"), p(Punct::ModSep), id("Window"), brace(vec![])]);
    assert!(matches!(w.widget, EitherWidget::Gtk(_)));

    let w = parse_ok(vec![id("MyWidget"), brace(vec![])]);
    assert!(matches!(w.widget, EitherWidget::Relm(_)));
    assert_eq!(w.name, "_mywidget1".to_string());

    let e = parse_err(vec![id("button"), brace(vec![])]);
    assert!(matches!(e, ParseError::ExpectedQualifiedName(_)));

    let e = parse_err(vec![id("gtk"), p(Punct::ModSep), id("button"), brace(vec![])]);
    assert!(matches!(e, ParseError::ExpectedQualifiedName(_)));
}

/// Two siblings of the same type get names that differ only in an increasing
/// numeric suffix.
#[test]
fn sibling_names_increase() {
    let tokens = vec![
        id("gtk"),
        p(Punct::ModSep),
        id("Box"),
        brace(vec![
            id("gtk"),
            p(Punct::ModSep),
            id("Button"),
            brace(vec![]),
            p(Punct::Comma),
            id("gtk"),
            p(Punct::ModSep),
            id("Button"),
            brace(vec![]),
        ]),
    ];
    let w = parse_ok(tokens);
    assert_eq!(w.name, "box1".to_string());
    assert_eq!(w.children.len(), 2);
    assert_eq!(w.children[0].name, "button1".to_string());
    assert_eq!(w.children[1].name, "button2".to_string());
}

/// One session numbers names across the whole tree; a fresh session starts
/// over deterministically.
#[test]
fn fresh_sessions_are_deterministic() {
    let tokens = vec![id("gtk"), p(Punct::ModSep), id("Window"), brace(vec![])];
    let w1 = parse_ok(tokens.clone());
    let w2 = parse_ok(tokens);
    assert_eq!(w1.name, w2.name);

    let tokens = vec![id("gtk"), p(Punct::ModSep), id("Window"), brace(vec![])];
    let gen = NameGen::new();
    let (a, gen) = parse(&tokens, gen).unwrap();
    let (b, _gen) = parse(&tokens, gen).unwrap();
    assert_eq!(a.name, "window1".to_string());
    assert_eq!(b.name, "window2".to_string());
}

/// The toolkit default for an event without a parameter list is one
/// discarded parameter; the composed default is none.
#[test]
fn event_default_parameters() {
    let w = parse_ok(vec![
        id("gtk"),
        p(Punct::ModSep),
        id("Button"),
        brace(vec![id("clicked"), p(Punct::FatArrow), id("Msg")]),
    ]);
    match &w.widget {
        EitherWidget::Gtk(gtk) => {
            assert_eq!(gtk.events[0].1.params, vec!["_".to_string()]);
        },
        EitherWidget::Relm(_) => panic!("a toolkit widget was declared"),
    }

    let w = parse_ok(vec![
        id("Comp"),
        brace(vec![id("clicked"), p(Punct::FatArrow), id("Msg")]),
    ]);
    match &w.widget {
        EitherWidget::Relm(relm) => {
            assert_eq!(relm.events[0].1[0].params, Vec::<String>::new());
        },
        EitherWidget::Gtk(_) => panic!("a composed widget was declared"),
    }
}

/// An explicit parameter list overrides the default, and `with` binds the
/// model alias.
#[test]
fn event_parameters_and_model() {
    let w = parse_ok(vec![
        id("gtk"),
        p(Punct::ModSep),
        id("Entry"),
        brace(vec![
            id("changed"),
            paren(vec![id("text"), p(Punct::Comma), id("len")]),
            id("with"),
            id("model"),
            p(Punct::FatArrow),
            id("Update"),
        ]),
    ]);
    match &w.widget {
        EitherWidget::Gtk(gtk) => {
            let event = &gtk.events[0].1;
            assert_eq!(event.params, vec!["text".to_string(), "len".to_string()]);
            assert_eq!(event.model_ident, Some("model".to_string()));
        },
        EitherWidget::Relm(_) => panic!("a toolkit widget was declared"),
    }
}

/// `changed => other@Msg(x)` dispatches to the foreign widget, firing only.
#[test]
fn foreign_dispatch() {
    let w = parse_ok(vec![
        id("gtk"),
        p(Punct::ModSep),
        id("Entry"),
        brace(vec![
            id("changed"),
            p(Punct::FatArrow),
            id("other"),
            p(Punct::At),
            id("Msg"),
            paren(vec![id("x")]),
        ]),
    ]);
    match &w.widget {
        EitherWidget::Gtk(gtk) => {
            assert_eq!(
                gtk.events[0].1.value,
                EventValue::ForeignWidget(
                    "other".to_string(),
                    EventValueReturn::WithoutReturn(vec![id("Msg"), paren(vec![id("x")])]),
                )
            );
        },
        EitherWidget::Relm(_) => panic!("a toolkit widget was declared"),
    }
}

/// `key_press => (Inhibit(false), Propagate)` sends the first expression and
/// returns the second.
#[test]
fn paired_return() {
    let w = parse_ok(vec![
        id("gtk"),
        p(Punct::ModSep),
        id("Window"),
        brace(vec![
            id("key_press"),
            p(Punct::FatArrow),
            paren(vec![
                id("Inhibit"),
                paren(vec![id("false")]),
                p(Punct::Comma),
                id("Propagate"),
            ]),
        ]),
    ]);
    match &w.widget {
        EitherWidget::Gtk(gtk) => {
            assert_eq!(
                gtk.events[0].1.value,
                EventValue::CurrentWidget(EventValueReturn::Return(
                    vec![id("Inhibit"), paren(vec![id("false")])],
                    vec![id("Propagate")],
                ))
            );
        },
        EitherWidget::Relm(_) => panic!("a toolkit widget was declared"),
    }
}

/// `return expr` both sends and returns the expression.
#[test]
fn call_and_return() {
    let w = parse_ok(vec![
        id("gtk"),
        p(Punct::ModSep),
        id("Window"),
        brace(vec![
            id("delete_event"),
            p(Punct::FatArrow),
            id("return"),
            id("Quit"),
        ]),
    ]);
    match &w.widget {
        EitherWidget::Gtk(gtk) => {
            assert_eq!(
                gtk.events[0].1.value,
                EventValue::CurrentWidget(EventValueReturn::CallReturn(vec![id("Quit")]))
            );
        },
        EitherWidget::Relm(_) => panic!("a toolkit widget was declared"),
    }
}

/// `pack: { expand: true }` fills the child properties, not the properties.
#[test]
fn child_properties_are_separate() {
    let w = parse_ok(vec![
        id("gtk"),
        p(Punct::ModSep),
        id("Box"),
        brace(vec![
            id("gtk"),
            p(Punct::ModSep),
            id("Button"),
            brace(vec![id("pack"), p(Punct::Colon), brace(vec![
                id("expand"),
                p(Punct::Colon),
                id("true"),
            ])]),
        ]),
    ]);
    let button = &w.children[0];
    assert_eq!(button.child_properties, vec![("expand".to_string(), vec![id("true")])]);
    assert!(button.properties.is_empty());
}

/// An identifier followed by none of `:`, `(`, `=>` aborts the parse and the
/// error identifies the offending position and token.
#[test]
fn malformed_entry_aborts() {
    let e = parse_err(vec![
        id("gtk"),
        p(Punct::ModSep),
        id("Window"),
        brace(vec![id("foo")]),
    ]);
    assert_eq!(e, ParseError::ExpectedPropertyOrEvent(None));
    assert!(!e.describe().is_empty());

    let e = parse_err(vec![
        id("gtk"),
        p(Punct::ModSep),
        id("Window"),
        brace(vec![id("foo"), id("bar")]),
    ]);
    assert_eq!(e, ParseError::ExpectedPropertyOrEvent(Some(id("bar"))));
}

/// A later write to the same property silently wins.
#[test]
fn later_property_write_wins() {
    let w = parse_ok(vec![
        id("gtk"),
        p(Punct::ModSep),
        id("Window"),
        brace(vec![
            id("title"),
            p(Punct::Colon),
            id("a"),
            p(Punct::Comma),
            id("title"),
            p(Punct::Colon),
            id("b"),
        ]),
    ]);
    assert_eq!(w.properties, vec![("title".to_string(), vec![id("b")])]);
}

/// A toolkit signal keeps only its last binding; a composed signal
/// accumulates all of them in order.
#[test]
fn event_accumulation_by_widget_kind() {
    let w = parse_ok(vec![
        id("gtk"),
        p(Punct::ModSep),
        id("Button"),
        brace(vec![
            id("clicked"),
            p(Punct::FatArrow),
            id("A"),
            p(Punct::Comma),
            id("clicked"),
            p(Punct::FatArrow),
            id("B"),
        ]),
    ]);
    match &w.widget {
        EitherWidget::Gtk(gtk) => {
            assert_eq!(gtk.events.len(), 1);
            assert_eq!(
                gtk.events[0].1.value,
                EventValue::CurrentWidget(EventValueReturn::WithoutReturn(vec![id("B")]))
            );
        },
        EitherWidget::Relm(_) => panic!("a toolkit widget was declared"),
    }

    let w = parse_ok(vec![
        id("Comp"),
        brace(vec![
            id("msg"),
            p(Punct::FatArrow),
            id("A"),
            p(Punct::Comma),
            id("msg"),
            p(Punct::FatArrow),
            id("B"),
        ]),
    ]);
    match &w.widget {
        EitherWidget::Relm(relm) => {
            assert_eq!(relm.events.len(), 1);
            let bindings = &relm.events[0].1;
            assert_eq!(bindings.len(), 2);
            assert_eq!(
                bindings[0].value,
                EventValue::CurrentWidget(EventValueReturn::WithoutReturn(vec![id("A")]))
            );
            assert_eq!(
                bindings[1].value,
                EventValue::CurrentWidget(EventValueReturn::WithoutReturn(vec![id("B")]))
            );
        },
        EitherWidget::Gtk(_) => panic!("a composed widget was declared"),
    }
}

/// Attributes: `name` overrides the generated name and marks the toolkit
/// widget as saved; `container` sets the marker; `parent` is recorded.
#[test]
fn attributes_apply() {
    let w = parse_ok(vec![
        p(Punct::Pound),
        bracket(vec![id("name"), p(Punct::Equals), lit("main_window")]),
        id("gtk"),
        p(Punct::ModSep),
        id("Window"),
        brace(vec![
            p(Punct::Pound),
            bracket(vec![id("container")]),
            id("gtk"),
            p(Punct::ModSep),
            id("Box"),
            brace(vec![]),
        ]),
    ]);
    assert_eq!(w.name, "main_window".to_string());
    match &w.widget {
        EitherWidget::Gtk(gtk) => assert!(gtk.save),
        EitherWidget::Relm(_) => panic!("a toolkit widget was declared"),
    }
    let inner = &w.children[0];
    assert_eq!(inner.container_type, Some(None));

    let w = parse_ok(vec![
        p(Punct::Pound),
        bracket(vec![id("container"), p(Punct::Equals), lit("Widget")]),
        p(Punct::Pound),
        bracket(vec![id("parent"), p(Punct::Equals), lit("main")]),
        id("gtk"),
        p(Punct::ModSep),
        id("Box"),
        brace(vec![]),
    ]);
    assert_eq!(w.container_type, Some(Some("Widget".to_string())));
    assert_eq!(w.parent_id, Some("main".to_string()));
}

/// An unnamed toolkit widget is not marked for saving.
#[test]
fn unnamed_widget_not_saved() {
    let w = parse_ok(vec![id("gtk"), p(Punct::ModSep), id("Window"), brace(vec![])]);
    match &w.widget {
        EitherWidget::Gtk(gtk) => assert!(!gtk.save),
        EitherWidget::Relm(_) => panic!("a toolkit widget was declared"),
    }
}

/// A composed leaf may stand without a body among a container's children.
#[test]
fn composed_leaf_child() {
    let w = parse_ok(vec![
        id("gtk"),
        p(Punct::ModSep),
        id("Box"),
        brace(vec![
            id("MyComp"),
            p(Punct::Comma),
            id("gtk"),
            p(Punct::ModSep),
            id("Label"),
            brace(vec![]),
        ]),
    ]);
    assert_eq!(w.children.len(), 2);
    assert_eq!(w.children[0].name, "_mycomp1".to_string());
    assert!(matches!(w.children[0].widget, EitherWidget::Relm(_)));
    assert_eq!(w.children[1].name, "label1".to_string());
}

/// A generic argument list is part of the qualified name's span.
#[test]
fn generic_path_span() {
    let w = parse_ok(vec![
        id("MyWidget"),
        p(Punct::Lt),
        id("u32"),
        p(Punct::Gt),
        brace(vec![]),
    ]);
    assert_eq!(w.typ.segments, vec!["MyWidget".to_string()]);
    assert_eq!(
        w.typ.span,
        vec![id("MyWidget"), p(Punct::Lt), id("u32"), p(Punct::Gt)]
    );
    assert_eq!(w.name, "_mywidget1".to_string());
}

/// A leading string literal names a separate view file.
#[test]
fn file_indirection_marker() {
    assert_eq!(view_source(&vec![lit("window.rs")]), Some("window.rs".to_string()));
    assert_eq!(view_source(&vec![id("gtk")]), None);
    assert_eq!(view_source(&Vec::<Token>::new()), None);
}

/// A missing body aborts a toolkit declaration.
#[test]
fn missing_body_aborts() {
    let e = parse_err(vec![id("gtk"), p(Punct::ModSep), id("Window")]);
    assert!(matches!(e, ParseError::ExpectedQualifiedName(_) | ParseError::ExpectedBrace(_)));

    let e = parse_err(vec![
        id("gtk"),
        p(Punct::ModSep),
        id("Window"),
        paren(vec![]),
        id("x"),
    ]);
    assert_eq!(e, ParseError::ExpectedBrace(Some(id("x"))));
}

/// The public constructors build the documented defaults.
#[test]
fn constructors_build_defaults() {
    let e = Event::new();
    assert_eq!(
        e,
        Event {
            model_ident: None,
            params: vec!["_".to_string()],
            value: EventValue::CurrentWidget(EventValueReturn::WithoutReturn(vec![])),
        }
    );

    let g = GtkWidget::new();
    assert!(g.events.is_empty());
    assert_eq!(g.relm_name, None);
    assert!(!g.save);

    let r = RelmWidget::new();
    assert!(r.events.is_empty());
}
