//! The XML tokenizer that the report parsers read from: quick-xml, reached
//! through a reader of this library that hands each event out as plain
//! values.

use vstd::prelude::*;

use quick_xml::events::attributes::Attribute;
use quick_xml::events::Event::{Empty, End, Eof, Start};
use quick_xml::name::QName;

verus! {

#[verifier::external_type_specification]
#[verifier::external_body]
pub struct ExXmlError(quick_xml::Error);

#[verifier::external_type_specification]
#[verifier::external_body]
#[verifier::reject_recursive_types(R)]
pub struct ExXmlReader<R>(quick_xml::Reader<R>);

/// One attribute of an element as the tokenizer hands it out: either the key
/// and the raw (still escaped) value, or the message of a malformed attribute.
pub type XmlAttr = Result<(String, String), String>;

/// An element tag: its name and its attributes in document order; a
/// malformed attribute stands as its message, in its place.
pub struct XmlTag {
    pub name: String,
    pub attrs: Vec<XmlAttr>,
}

/// One event of the XML token stream.
pub enum XmlEvent {
    /// An opening tag (`empty` is false) or a self-closing one (`empty` is true).
    Tag { empty: bool, tag: XmlTag },
    /// A closing tag, by name.
    End(String),
    /// End of input.
    Eof,
    /// Any other event (text, comment, declaration, ...).
    Other,
    /// The tokenizer failed.
    Failed(quick_xml::Error),
}

pub ghost enum XmlAttrView {
    Pair(Seq<char>, Seq<char>),
    Malformed(Seq<char>),
}

pub ghost struct XmlTagView {
    pub name: Seq<char>,
    pub attrs: Seq<XmlAttrView>,
}

pub ghost enum XmlEventView {
    Tag { empty: bool, tag: XmlTagView },
    End(Seq<char>),
    Eof,
    Other,
    Failed,
}

pub open spec fn attr_view(a: XmlAttr) -> XmlAttrView {
    match a {
        Ok((k, v)) => XmlAttrView::Pair(k@, v@),
        Err(m) => XmlAttrView::Malformed(m@),
    }
}

impl View for XmlTag {
    type V = XmlTagView;

    open spec fn view(&self) -> XmlTagView {
        XmlTagView { name: self.name@, attrs: self.attrs@.map_values(|a: XmlAttr| attr_view(a)) }
    }
}

impl View for XmlEvent {
    type V = XmlEventView;

    open spec fn view(&self) -> XmlEventView {
        match self {
            XmlEvent::Tag { empty, tag } => XmlEventView::Tag { empty: *empty, tag: tag@ },
            XmlEvent::End(n) => XmlEventView::End(n@),
            XmlEvent::Eof => XmlEventView::Eof,
            XmlEvent::Other => XmlEventView::Other,
            XmlEvent::Failed(_) => XmlEventView::Failed,
        }
    }
}

/// The event that quick-xml's `Reader::read_event` returns at its
/// `index`-th call on a reader freshly made over `input`.
pub uninterp spec fn xml_event_at(input: Seq<u8>, index: nat) -> XmlEventView;

/// What quick-xml's `Attribute::unescape_value` makes of the raw attribute
/// value `raw`: the unescaped and normalized value, or an error message.
pub uninterp spec fn xml_unescape(raw: Seq<char>) -> Result<Seq<char>, Seq<char>>;

/// A quick-xml reader over a byte slice, with the number of events read so
/// far and the byte offset just after the last one.
pub struct XmlReader<'a> {
    inner: quick_xml::Reader<&'a [u8]>,
    input: Ghost<Seq<u8>>,
    count: Ghost<nat>,
    pos: u64,
}

impl<'a> XmlReader<'a> {
    pub closed spec fn input(&self) -> Seq<u8> {
        self.input@
    }

    pub closed spec fn count(&self) -> nat {
        self.count@
    }

    pub closed spec fn pos(&self) -> nat {
        self.pos as nat
    }

    /// Makes a quick-xml `Reader::from_reader` over `input` (default
    /// configuration); nothing has been read yet.
    #[verifier::external_body]
    pub(crate) fn new(input: &'a [u8]) -> (r: XmlReader<'a>)
        ensures
            r.input() == input@,
            r.count() == 0,
            r.pos() == 0,
    {
        XmlReader { inner: quick_xml::Reader::from_reader(input), input: Ghost(input@), count: Ghost(0), pos: 0 }
    }

    /// Calls quick-xml's `Reader::read_event` and hands the event out as plain
    /// values; `buffer_position` gives the new offset. The contract claims that
    /// the event is a function of the input and of the number of earlier calls,
    /// that the offset never passes the end of the input, and that every event
    /// other than the end of input or a failure consumes at least one byte (the
    /// slice reader advances past each tag, text run or reference it emits).
    #[verifier::external_body]
    pub(crate) fn next_event(&mut self) -> (ev: XmlEvent)
        ensures
            ev@ == xml_event_at(old(self).input(), old(self).count()),
            final(self).input() == old(self).input(),
            final(self).count() == old(self).count() + 1,
            final(self).pos() <= final(self).input().len(),
            !(ev@ is Eof || ev@ is Failed) ==> old(self).pos() < final(self).pos(),
    {
        let res = self.inner.read_event();
        self.pos = self.inner.buffer_position();
        let empty = matches!(res, Ok(Empty(_)));
        match res {
            Ok(Start(e) | Empty(e)) => XmlEvent::Tag { empty, tag: XmlTag {
                name: e.name().0.into(),
                attrs: e.attributes().map(|a| a.map(|a| (a.key.0.into(), a.value.into())).map_err(|e| e.to_string())).collect(),
            } },
            Ok(End(e)) => XmlEvent::End(e.name().0.into()),
            Ok(Eof) => XmlEvent::Eof,
            Ok(_) => XmlEvent::Other,
            Err(e) => XmlEvent::Failed(e),
        }
    }
}

/// Unescapes and normalizes a raw attribute value with quick-xml's
/// `Attribute::unescape_value`; a failure comes back as its message.
#[verifier::external_body]
pub(crate) fn unescape_attr_value(raw: &str) -> (r: Result<String, String>)
    ensures
        match r {
            Ok(v) => xml_unescape(raw@) == Ok::<Seq<char>, Seq<char>>(v@),
            Err(m) => xml_unescape(raw@) == Err::<Seq<char>, Seq<char>>(m@),
        },
{
    #[allow(deprecated)]
    let r = Attribute { key: QName(""), value: raw.into() }.unescape_value();
    r.map(|v| v.into_owned()).map_err(|e| e.to_string())
}

} // verus!
