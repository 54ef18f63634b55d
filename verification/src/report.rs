//! The structured report, as a stream of events over one open-element
//! stack.
//!
//! The builder enforces well-formed nesting: text stands only inside
//! an element, and every close mirrors the innermost open. The caller
//! turns the finished event stream into the output document; a stream
//! the builder produced with its stack emptied is balanced.

use vstd::prelude::*;

verus! {

/// One event of the report stream.
pub enum XmlEvent {
    /// Open an element with its attributes.
    Start { name: String, attrs: Vec<(String, String)> },
    /// Text inside the innermost open element.
    Characters { text: String },
    /// Close the innermost open element.
    End,
}

/// The mathematical value of one event.
pub enum EventV {
    Start { name: Seq<char>, attrs: Seq<(Seq<char>, Seq<char>)> },
    Characters { text: Seq<char> },
    End,
}

impl View for XmlEvent {
    type V = EventV;

    open spec fn view(&self) -> EventV {
        match self {
            XmlEvent::Start { name, attrs } => EventV::Start {
                name: name@,
                attrs: attrs@.map_values(|p: (String, String)| (p.0@, p.1@)),
            },
            XmlEvent::Characters { text } => EventV::Characters { text: text@ },
            XmlEvent::End => EventV::End,
        }
    }
}

/// The stack of open element names after a stream of events, or
/// nothing if the stream is ill-formed: a close or text without an
/// open element.
pub open spec fn stack_after(events: Seq<EventV>) -> Option<Seq<Seq<char>>>
    decreases events.len(),
{
    if events.len() == 0 {
        Some(Seq::empty())
    } else {
        match stack_after(events.drop_last()) {
            None => None,
            Some(st) => match events.last() {
                EventV::Start { name, attrs } => Some(st.push(name)),
                EventV::Characters { text } => if st.len() == 0 {
                    None
                } else {
                    Some(st)
                },
                EventV::End => if st.len() == 0 {
                    None
                } else {
                    Some(st.drop_last())
                },
            },
        }
    }
}

/// A balanced stream: well-formed, with every open closed.
pub open spec fn balanced(events: Seq<EventV>) -> bool {
    stack_after(events) == Some(Seq::<Seq<char>>::empty())
}

/// The report builder: the events so far and the open-element stack.
pub struct ReportBuilder {
    pub events: Vec<XmlEvent>,
    pub open_names: Vec<String>,
}

impl ReportBuilder {
    /// The builder's invariant: its stack is the stack of its stream.
    pub open spec fn wf(&self) -> bool {
        stack_after(self.events@.map_values(|e: XmlEvent| e@)) == Some(
            self.open_names@.map_values(|s: String| s@),
        )
    }

    /// The events so far, as values.
    pub open spec fn stream(&self) -> Seq<EventV> {
        self.events@.map_values(|e: XmlEvent| e@)
    }

    /// The open element names, innermost last.
    pub open spec fn stack(&self) -> Seq<Seq<char>> {
        self.open_names@.map_values(|s: String| s@)
    }

    /// An empty, well-formed builder.
    pub fn new() -> (r: ReportBuilder)
        ensures
            r.wf(),
            r.stream() == Seq::<EventV>::empty(),
            r.stack() == Seq::<Seq<char>>::empty(),
    {
        let r = ReportBuilder { events: Vec::new(), open_names: Vec::new() };
        proof {
            assert(r.stream() =~= Seq::<EventV>::empty());
            assert(r.stack() =~= Seq::<Seq<char>>::empty());
        }
        r
    }

    /// Open an element.
    pub fn start(&mut self, name: String, attrs: Vec<(String, String)>)
        requires
            old(self).wf(),
        ensures
            final(self).wf(),
            final(self).stream() == old(self).stream() + seq![
                EventV::Start {
                    name: name@,
                    attrs: attrs@.map_values(|p: (String, String)| (p.0@, p.1@)),
                },
            ],
            final(self).stack() == old(self).stack().push(name@),
    {
        let ghost name_v = name@;
        self.open_names.push(name.clone());
        self.events.push(XmlEvent::Start { name, attrs });
        proof {
            assert(self.stream().drop_last() =~= old(self).stream());
            assert(self.stack() =~= old(self).stack().push(name_v));
            assert(self.stream() =~= old(self).stream() + seq![self.stream().last()]);
        }
    }

    /// Put text inside the innermost open element.
    pub fn characters(&mut self, text: String)
        requires
            old(self).wf(),
            old(self).stack().len() > 0,
        ensures
            final(self).wf(),
            final(self).stream() == old(self).stream() + seq![EventV::Characters { text: text@ }],
            final(self).stack() == old(self).stack(),
    {
        self.events.push(XmlEvent::Characters { text });
        proof {
            assert(self.stream().drop_last() =~= old(self).stream());
            assert(self.stack() =~= old(self).stack());
            assert(self.stream() =~= old(self).stream() + seq![self.stream().last()]);
        }
    }

    /// Close the innermost open element.
    pub fn end(&mut self)
        requires
            old(self).wf(),
            old(self).stack().len() > 0,
        ensures
            final(self).wf(),
            final(self).stream() == old(self).stream() + seq![EventV::End],
            final(self).stack() == old(self).stack().drop_last(),
    {
        self.events.push(XmlEvent::End);
        let _ = self.open_names.pop();
        proof {
            assert(self.stream().drop_last() =~= old(self).stream());
            assert(self.stack() =~= old(self).stack().drop_last());
            assert(self.stream() =~= old(self).stream() + seq![EventV::End]);
        }
    }

    /// Open an element, write one text node in it, and close it.
    pub fn leaf(&mut self, name: String, attrs: Vec<(String, String)>, text: String)
        requires
            old(self).wf(),
        ensures
            final(self).wf(),
            final(self).stream() == old(self).stream() + leaf_events(
                name@,
                attrs@.map_values(|p: (String, String)| (p.0@, p.1@)),
                text@,
            ),
            final(self).stack() == old(self).stack(),
    {
        let ghost name_v = name@;
        let ghost attrs_v = attrs@.map_values(|p: (String, String)| (p.0@, p.1@));
        let ghost text_v = text@;
        self.start(name, attrs);
        self.characters(text);
        self.end();
        proof {
            assert(self.stack() =~= old(self).stack());
            assert(self.stream() =~= old(self).stream() + leaf_events(name_v, attrs_v, text_v));
        }
    }

    /// Hand the finished stream to the caller. The stack must be
    /// empty, so the stream is balanced.
    pub fn finish(self) -> (r: Vec<XmlEvent>)
        requires
            self.wf(),
            self.stack().len() == 0,
        ensures
            r@.map_values(|e: XmlEvent| e@) == self.stream(),
            balanced(r@.map_values(|e: XmlEvent| e@)),
    {
        proof {
            assert(self.stack() =~= Seq::<Seq<char>>::empty());
        }
        self.events
    }
}

/// The three events of a leaf element: open, text, close.
pub open spec fn leaf_events(
    name: Seq<char>,
    attrs: Seq<(Seq<char>, Seq<char>)>,
    text: Seq<char>,
) -> Seq<EventV> {
    seq![
        EventV::Start { name, attrs },
        EventV::Characters { text },
        EventV::End,
    ]
}

/// Law of well-nested output: a well-formed builder whose open-element
/// stack has been emptied holds a balanced stream, so every close
/// mirrors its open and none is missing.
pub proof fn lemma_builder_balanced(b: &ReportBuilder)
    requires
        b.wf(),
        b.stack().len() == 0,
    ensures
        balanced(b.stream()),
{
    assert(b.stack() =~= Seq::<Seq<char>>::empty());
}

} // verus!
