//! XML reading and writing with `quick-xml`.
//!
//! Every event is written by `quick_xml::Writer::write_event` into a fresh `Vec`, which
//! cannot fail; what it writes is [`written_form`], the event's raw content between its
//! kind's delimiters. Events are read with a `quick_xml::Reader` over a string, whose events
//! are named [`xml_tokens`].
use quick_xml::events::BytesDecl;
use quick_xml::events::BytesEnd;
use quick_xml::events::BytesStart;
use quick_xml::events::BytesText;
use quick_xml::events::Event;
use quick_xml::Writer;
use vstd::prelude::*;

use crate::text::find;

verus! {

/// `quick_xml::Reader`, carried opaquely.
#[verifier::external_type_specification]
#[verifier::external_body]
#[verifier::reject_recursive_types(R)]
pub struct ExReader<R>(quick_xml::Reader<R>);

/// `quick_xml::events::Event`, carried opaquely.
#[verifier::external_type_specification]
#[verifier::external_body]
pub struct ExEvent<'a>(Event<'a>);

/// The kinds of XML events.
#[derive(Debug, Clone, Copy, PartialEq, Eq, Structural)]
pub enum XmlKind {
    Start,
    End,
    Empty,
    Text,
    CData,
    Comment,
    Decl,
    PI,
    DocType,
    Eof,
}

/// An event as the reader reports it: its kind; its raw content (the bytes between the
/// event's delimiters, as text); the local name of a start or end tag (empty for other
/// kinds); and its decoded text, where the kind has one and decoding succeeds: the unescaped
/// text of a `Text` event, the content of a `CData` event as UTF-8.
pub struct XmlToken {
    pub kind: XmlKind,
    pub raw: Seq<char>,
    pub name: Seq<char>,
    pub text: Option<Seq<char>>,
}

/// XML white space: space, tab, carriage return, line feed.
pub open spec fn is_xml_space(c: char) -> bool {
    c == ' ' || c == '\t' || c == '\r' || c == '\n'
}

/// The index of the first XML white space in `raw` from `i` on, or its length.
pub open spec fn name_end_from(raw: Seq<char>, i: int) -> int
    decreases raw.len() - i,
{
    if i < 0 || i >= raw.len() {
        raw.len() as int
    } else if is_xml_space(raw[i]) {
        i
    } else {
        name_end_from(raw, i + 1)
    }
}

/// A qualified name without its namespace prefix: everything after the first `:`.
pub open spec fn local_part(name: Seq<char>) -> Seq<char> {
    match find(name, seq![':']) {
        Some(i) => name.subrange(i + 1, name.len() as int),
        None => name,
    }
}

/// The local name of the tag of an event with raw content `raw`: for a start tag, the name
/// (the content up to the first XML white space) without its prefix; for an end tag, whose
/// raw content is its name (trailing white space already trimmed by the reader), the name
/// without its prefix (`BytesStart::local_name`, `BytesEnd::local_name`); empty for the
/// other kinds.
pub open spec fn xml_local_name(kind: XmlKind, raw: Seq<char>) -> Seq<char> {
    if kind == XmlKind::Start {
        local_part(raw.subrange(0, name_end_from(raw, 0)))
    } else if kind == XmlKind::End {
        local_part(raw)
    } else {
        Seq::empty()
    }
}

/// The decoded text of an event with raw content `raw`: `BytesText::unescape` for a text
/// event, the content as UTF-8 for a `CData` event, `None` for the other kinds or when
/// decoding fails.
pub uninterp spec fn xml_decoded_text(kind: XmlKind, raw: Seq<char>) -> Option<Seq<char>>;

/// A read event: its kind and raw content, and the event itself for writing it back. Only
/// [`read_item`] makes one, so the three agree.
pub struct XmlItem {
    kind: XmlKind,
    raw: String,
    event: Event<'static>,
}

impl XmlItem {
    /// The token this item reports.
    pub closed spec fn token(&self) -> XmlToken {
        XmlToken {
            kind: self.kind,
            raw: self.raw@,
            name: xml_local_name(self.kind, self.raw@),
            text: xml_decoded_text(self.kind, self.raw@),
        }
    }

    /// The name and decoded text of the token are those of its kind and raw content.
    pub proof fn lemma_token_parts(&self)
        ensures
            self.token().name == xml_local_name(self.token().kind, self.token().raw),
            self.token().text == xml_decoded_text(self.token().kind, self.token().raw),
    {
    }

    /// The kind of the event.
    pub fn kind(&self) -> (r: XmlKind)
        ensures
            r == self.token().kind,
    {
        self.kind
    }

    /// The raw content of the event.
    pub fn raw(&self) -> (r: &str)
        ensures
            r@ == self.token().raw,
    {
        self.raw.as_str()
    }

    /// The local name of a start or end tag; empty for the other kinds.
    #[verifier::external_body]
    pub(crate) fn local_name(&self) -> (r: String)
        ensures
            r@ == xml_local_name(self.token().kind, self.token().raw),
    {
        match &self.event {
            Event::Start(e) => String::from_utf8_lossy(e.local_name().as_ref()).into_owned(),
            Event::End(e) => String::from_utf8_lossy(e.local_name().as_ref()).into_owned(),
            _ => String::new(),
        }
    }

    /// The decoded text of a text or `CData` event.
    #[verifier::external_body]
    pub(crate) fn decoded_text(&self) -> (r: Option<String>)
        ensures
            match r {
                Some(t) => xml_decoded_text(self.token().kind, self.token().raw) == Some(t@),
                None => xml_decoded_text(self.token().kind, self.token().raw) is None,
            },
    {
        match &self.event {
            Event::Text(e) => e.unescape().ok().map(|t| t.into_owned()),
            Event::CData(e) => std::str::from_utf8(e.as_ref()).ok().map(|t| t.to_string()),
            _ => None,
        }
    }
}

/// The delimiters the writer puts before an event's raw content.
pub open spec fn event_open(kind: XmlKind) -> Seq<char> {
    match kind {
        XmlKind::Start => "<"@,
        XmlKind::End => "</"@,
        XmlKind::Empty => "<"@,
        XmlKind::Comment => "<!--"@,
        XmlKind::CData => "<![CDATA["@,
        XmlKind::Decl => "<?"@,
        XmlKind::PI => "<?"@,
        XmlKind::DocType => "<!DOCTYPE "@,
        _ => Seq::empty(),
    }
}

/// The delimiters the writer puts after an event's raw content.
pub open spec fn event_close(kind: XmlKind) -> Seq<char> {
    match kind {
        XmlKind::Start => ">"@,
        XmlKind::End => ">"@,
        XmlKind::Empty => "/>"@,
        XmlKind::Comment => "-->"@,
        XmlKind::CData => "]]>"@,
        XmlKind::Decl => "?>"@,
        XmlKind::PI => "?>"@,
        XmlKind::DocType => ">"@,
        _ => Seq::empty(),
    }
}

/// What `quick_xml::Writer::write_event` writes for an event: the raw content between the
/// kind's delimiters (nothing for the end of the document).
pub open spec fn written_form(kind: XmlKind, raw: Seq<char>) -> Seq<char> {
    if kind == XmlKind::Eof {
        Seq::empty()
    } else {
        event_open(kind) + raw + event_close(kind)
    }
}

/// What `c` becomes in escaped XML (`quick_xml::escape::escape`).
pub open spec fn xml_escape_char(c: char) -> Seq<char> {
    if c == '<' {
        "&lt;"@
    } else if c == '>' {
        "&gt;"@
    } else if c == '&' {
        "&amp;"@
    } else if c == '\'' {
        "&apos;"@
    } else if c == '"' {
        "&quot;"@
    } else {
        seq![c]
    }
}

/// `s` with `<`, `>`, `&`, `'` and `"` escaped (`quick_xml::escape::escape`).
pub open spec fn xml_escape(s: Seq<char>) -> Seq<char>
    decreases s.len(),
{
    if s.len() == 0 {
        Seq::empty()
    } else {
        xml_escape(s.drop_last()) + xml_escape_char(s.last())
    }
}

/// Writes the XML declaration `<?xml version="..." encoding="..."?>`
/// (`BytesDecl::new(version, Some(encoding), None)`). Writing into a `Vec` does not fail.
#[verifier::external_body]
pub(crate) fn write_decl(version: &str, encoding: &str) -> (r: String)
    ensures
        r@ == written_form(
            XmlKind::Decl,
            "xml version=\""@ + version@ + "\" encoding=\""@ + encoding@ + "\""@,
        ),
{
    let mut w = Writer::new(Vec::new());
    let _ = w.write_event(Event::Decl(BytesDecl::new(version, Some(encoding), None)));
    String::from_utf8_lossy(&w.into_inner()).into_owned()
}

/// Writes the start tag `<name>` (`BytesStart::new(name)`).
#[verifier::external_body]
pub(crate) fn write_start(name: &str) -> (r: String)
    ensures
        r@ == written_form(XmlKind::Start, name@),
{
    let mut w = Writer::new(Vec::new());
    let _ = w.write_event(Event::Start(BytesStart::new(name)));
    String::from_utf8_lossy(&w.into_inner()).into_owned()
}

/// Writes the start tag `<name key="value">`, the value escaped (`push_attribute`).
#[verifier::external_body]
pub(crate) fn write_start_with_attribute(name: &str, key: &str, value: &str) -> (r: String)
    ensures
        r@ == written_form(
            XmlKind::Start,
            name@ + " "@ + key@ + "=\""@ + xml_escape(value@) + "\""@,
        ),
{
    let mut start = BytesStart::new(name);
    start.push_attribute((key, value));
    let mut w = Writer::new(Vec::new());
    let _ = w.write_event(Event::Start(start));
    String::from_utf8_lossy(&w.into_inner()).into_owned()
}

/// Writes `text` as escaped character data (`BytesText::new(text)`).
#[verifier::external_body]
pub(crate) fn write_text(text: &str) -> (r: String)
    ensures
        r@ == written_form(XmlKind::Text, xml_escape(text@)),
{
    let mut w = Writer::new(Vec::new());
    let _ = w.write_event(Event::Text(BytesText::new(text)));
    String::from_utf8_lossy(&w.into_inner()).into_owned()
}

/// Writes the end tag `</name>` (`BytesEnd::new(name)`).
#[verifier::external_body]
pub(crate) fn write_end(name: &str) -> (r: String)
    ensures
        r@ == written_form(XmlKind::End, name@),
{
    let mut w = Writer::new(Vec::new());
    let _ = w.write_event(Event::End(BytesEnd::new(name)));
    String::from_utf8_lossy(&w.into_inner()).into_owned()
}

/// Writes back an event that was read: its raw content between its kind's delimiters.
#[verifier::external_body]
pub(crate) fn write_item(item: &XmlItem) -> (r: String)
    ensures
        r@ == written_form(item.token().kind, item.token().raw),
{
    let mut w = Writer::new(Vec::new());
    let _ = w.write_event(item.event.clone());
    String::from_utf8_lossy(&w.into_inner()).into_owned()
}

/// The events a `quick_xml::Reader` over `xml`, with text trimming on, reports one after
/// another, up to and including the first end of document or read error (`None`).
pub uninterp spec fn xml_tokens(xml: Seq<char>) -> Seq<Option<XmlToken>>;

/// The events a reader has yet to report.
pub uninterp spec fn pending_events(r: quick_xml::Reader<&[u8]>) -> Seq<Option<XmlToken>>;

/// The events end with the end of the document or an error, and only there.
pub open spec fn ends_once(t: Seq<Option<XmlToken>>) -> bool {
    &&& t.len() > 0
    &&& forall|i: int|
        0 <= i < t.len() ==> ((#[trigger] t[i] is None || t[i]->0.kind == XmlKind::Eof) <==> i
            == t.len() - 1)
}

/// A reader over `xml` that trims white space around text (`Reader::from_str` with
/// `trim_text(true)`).
#[verifier::external_body]
pub(crate) fn text_reader<'a>(xml: &'a str) -> (r: quick_xml::Reader<&'a [u8]>)
    ensures
        pending_events(r) == xml_tokens(xml@),
        ends_once(pending_events(r)),
{
    let mut reader = quick_xml::Reader::from_str(xml);
    reader.config_mut().trim_text(true);
    reader
}

/// Reads the next event (`Reader::read_event_into`): the first pending one, which is then
/// consumed; `Err` stands for a read error.
#[verifier::external_body]
pub(crate) fn read_item(reader: &mut quick_xml::Reader<&[u8]>, buf: &mut Vec<u8>) -> (r: Result<
    XmlItem,
    (),
>)
    ensures
        pending_events(*old(reader)).len() > 0 ==> {
            &&& pending_events(*final(reader)) == pending_events(*old(reader)).drop_first()
            &&& match r {
                Ok(item) => pending_events(*old(reader))[0] == Some(item.token()),
                Err(()) => pending_events(*old(reader))[0] is None,
            }
        },
{
    buf.clear();
    let event = reader.read_event_into(buf).map_err(|_| ())?.into_owned();
    let kind = match &event {
        Event::Start(_) => XmlKind::Start,
        Event::End(_) => XmlKind::End,
        Event::Empty(_) => XmlKind::Empty,
        Event::Text(_) => XmlKind::Text,
        Event::CData(_) => XmlKind::CData,
        Event::Comment(_) => XmlKind::Comment,
        Event::Decl(_) => XmlKind::Decl,
        Event::PI(_) => XmlKind::PI,
        Event::DocType(_) => XmlKind::DocType,
        Event::Eof => XmlKind::Eof,
    };
    Ok(XmlItem { kind, raw: String::from_utf8_lossy(event.as_ref()).into_owned(), event })
}

/// `s` holds an XML entity reference for a markup character at index `k`.
pub open spec fn entity_at(s: Seq<char>, k: int) -> bool {
    ||| (k + 5 <= s.len() && s.subrange(k, k + 5) == "&amp;"@)
    ||| (k + 4 <= s.len() && s.subrange(k, k + 4) == "&lt;"@)
    ||| (k + 4 <= s.len() && s.subrange(k, k + 4) == "&gt;"@)
    ||| (k + 6 <= s.len() && s.subrange(k, k + 6) == "&apos;"@)
    ||| (k + 6 <= s.len() && s.subrange(k, k + 6) == "&quot;"@)
}

/// `s` is safe character data: it holds no `<`, `>` or quote, and every `&` in it begins an
/// entity reference.
pub open spec fn is_escaped_text(s: Seq<char>) -> bool {
    forall|k: int|
        0 <= k < s.len() ==> {
            &&& #[trigger] s[k] != '<'
            &&& s[k] != '>'
            &&& s[k] != '"'
            &&& s[k] != '\''
            &&& s[k] == '&' ==> entity_at(s, k)
        }
}

proof fn lemma_escaped_concat(a: Seq<char>, b: Seq<char>)
    requires
        is_escaped_text(a),
        is_escaped_text(b),
    ensures
        is_escaped_text(a + b),
{
    let s = a + b;
    assert forall|k: int| 0 <= k < s.len() implies {
        &&& #[trigger] s[k] != '<'
        &&& s[k] != '>'
        &&& s[k] != '"'
        &&& s[k] != '\''
        &&& s[k] == '&' ==> entity_at(s, k)
    } by {
        if k < a.len() {
            assert(s[k] == a[k]);
            if a[k] == '&' {
                assert(entity_at(a, k));
                assert forall|n: int| 0 <= n && k + n <= a.len() implies #[trigger] s.subrange(k, k + n)
                    == a.subrange(k, k + n) by {
                    assert(s.subrange(k, k + n) =~= a.subrange(k, k + n));
                }
            }
        } else {
            let kb = k - a.len();
            assert(s[k] == b[kb]);
            if b[kb] == '&' {
                assert(entity_at(b, kb));
                assert forall|n: int| 0 <= n && kb + n <= b.len() implies #[trigger] s.subrange(k, k + n)
                    == b.subrange(kb, kb + n) by {
                    assert(s.subrange(k, k + n) =~= b.subrange(kb, kb + n));
                }
            }
        }
    }
}

/// Escaped text is safe character data: no `<`, `>` or quote can end up in it, and each `&`
/// begins one of the five entity references, so reading it back gives the text.
pub proof fn lemma_xml_escape_is_escaped_text(s: Seq<char>)
    ensures
        is_escaped_text(xml_escape(s)),
    decreases s.len(),
{
    reveal_strlit("&amp;");
    reveal_strlit("&lt;");
    reveal_strlit("&gt;");
    reveal_strlit("&apos;");
    reveal_strlit("&quot;");
    if s.len() > 0 {
        lemma_xml_escape_is_escaped_text(s.drop_last());
        let c = xml_escape_char(s.last());
        assert(is_escaped_text(c)) by {
            assert forall|k: int| 0 <= k < c.len() implies {
                &&& #[trigger] c[k] != '<'
                &&& c[k] != '>'
                &&& c[k] != '"'
                &&& c[k] != '\''
                &&& c[k] == '&' ==> entity_at(c, k)
            } by {
                if c[k] == '&' {
                    assert(k == 0);
                    assert(c.subrange(0, c.len() as int) =~= c);
                }
            }
        }
        lemma_escaped_concat(xml_escape(s.drop_last()), c);
    }
}

} // verus!
