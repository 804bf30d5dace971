//! The document store, and what the server does with each message.
use vstd::prelude::*;
use vstd::utf8::{encode_utf8, valid_utf8};

use super::actions::{actions_view, code_actions, quickfixes, CodeAction, CodeActionView};
use super::diagnostics::{
    diagnostics_for, diagnostics_spec, diagnostics_view, Diagnostic, DiagnosticView,
};
use super::position::Range;
use crate::collections::TextMap;
use crate::finding::{findings_view, Finding};
use crate::outside::{decode_lossy, utf8_lossy};
use crate::text::{str_eq, text_of};

verus! {

/// The messages that the server acts on.
#[derive(Debug, Clone, Copy, PartialEq, Eq, Structural)]
pub enum Method {
    Exit,
    DidOpen,
    DidChange,
    DidSave,
    DidClose,
    Other,
}

/// The notification that a method names.
pub open spec fn method_spec(name: Seq<char>) -> Method {
    if name == "exit"@ {
        Method::Exit
    } else if name == "textDocument/didOpen"@ {
        Method::DidOpen
    } else if name == "textDocument/didChange"@ {
        Method::DidChange
    } else if name == "textDocument/didSave"@ {
        Method::DidSave
    } else if name == "textDocument/didClose"@ {
        Method::DidClose
    } else {
        Method::Other
    }
}

/// The notification that a method names.
pub fn method(name: &str) -> (r: Method)
    ensures
        r == method_spec(name@),
{
    if str_eq(name, "exit") {
        Method::Exit
    } else if str_eq(name, "textDocument/didOpen") {
        Method::DidOpen
    } else if str_eq(name, "textDocument/didChange") {
        Method::DidChange
    } else if str_eq(name, "textDocument/didSave") {
        Method::DidSave
    } else if str_eq(name, "textDocument/didClose") {
        Method::DidClose
    } else {
        Method::Other
    }
}

/// The request that the server answers.
pub const CODE_ACTION: &'static str = "textDocument/codeAction";

/// One open document the server is tracking.
#[derive(Debug)]
pub struct Document {
    pub language_id: String,
    pub text: String,
}

/// What a document holds.
pub struct DocumentView {
    pub language_id: Seq<char>,
    pub text: Seq<char>,
}

impl View for Document {
    type V = DocumentView;

    open spec fn view(&self) -> DocumentView {
        DocumentView { language_id: self.language_id@, text: self.text@ }
    }
}

/// A notification, with what the server reads of it.
#[derive(Debug)]
pub enum Event {
    Exit,
    Open { uri: String, language_id: String, text: String },
    /// FULL sync: the last change holds the whole document; `None` where there is no change.
    Change { uri: String, text: Option<String> },
    Save { uri: String },
    Close { uri: String },
    Other,
}

/// What the server does next.
#[derive(Debug)]
pub enum Step {
    /// Leave the loop.
    Stop,
    /// Lint this text and publish the diagnostics of the document.
    Lint { uri: String, text: String },
    /// Publish no diagnostics for the document.
    Clear { uri: String },
    /// Nothing.
    Wait,
}

/// What a step holds.
pub enum StepView {
    Stop,
    Lint(Seq<char>, Seq<char>),
    Clear(Seq<char>),
    Wait,
}

impl View for Step {
    type V = StepView;

    open spec fn view(&self) -> StepView {
        match *self {
            Step::Stop => StepView::Stop,
            Step::Lint { uri, text } => StepView::Lint(uri@, text@),
            Step::Clear { uri } => StepView::Clear(uri@),
            Step::Wait => StepView::Wait,
        }
    }
}

/// How a document is published: linted where it is SQL, else cleared.
pub open spec fn publish_spec(uri: Seq<char>, doc: DocumentView) -> StepView {
    if doc.language_id == "sql"@ {
        StepView::Lint(uri, doc.text)
    } else {
        StepView::Clear(uri)
    }
}

/// How a document is published.
pub fn publish(uri: &str, doc: &Document) -> (r: Step)
    ensures
        r@ == publish_spec(uri@, doc@),
{
    if str_eq(doc.language_id.as_str(), "sql") {
        Step::Lint { uri: uri.to_owned(), text: doc.text.clone() }
    } else {
        Step::Clear { uri: uri.to_owned() }
    }
}

/// Server state carried across messages.
#[derive(Debug)]
pub struct State {
    pub docs: TextMap<Document>,
}

impl State {
    /// The document at `uri`, if it is open.
    pub open spec fn doc(&self, uri: Seq<char>) -> Option<DocumentView> {
        if self.docs.has(uri) {
            Some(self.docs.value_of(uri)@)
        } else {
            None
        }
    }

    /// No open document.
    pub fn new() -> (r: State)
        ensures
            forall|u: Seq<char>| #[trigger] r.doc(u) is None,
    {
        State { docs: TextMap::new() }
    }

    /// Track a document, in place of one that was open under its uri.
    pub fn open(&mut self, uri: String, language_id: String, text: String) -> (r: Step)
        ensures
            forall|u: Seq<char>| #[trigger]
                final(self).doc(u) == (if u == uri@ {
                    Some(DocumentView { language_id: language_id@, text: text@ })
                } else {
                    old(self).doc(u)
                }),
            r@ == publish_spec(
                uri@,
                (DocumentView { language_id: language_id@, text: text@ }),
            ),
    {
        let doc = Document { language_id, text };
        let step = publish(uri.as_str(), &doc);
        let ghost before = *self;
        let ghost key = uri@;
        self.docs.insert(uri, doc);
        proof {
            assert forall|u: Seq<char>| #[trigger]
                self.doc(u) == (if u == key {
                    Some(doc@)
                } else {
                    before.doc(u)
                }) by {
                assert(self.docs.has(u) <==> (before.docs.has(u) || u == key));
            }
        }
        step
    }

    /// Replace the text of an open document. Without a change it is published as it is; a
    /// document that is not open stays so.
    pub fn change(&mut self, uri: &str, text: Option<String>) -> (r: Step)
        ensures
            match old(self).doc(uri@) {
                Some(d) => {
                    let now = DocumentView {
                        language_id: d.language_id,
                        text: match text {
                            Some(t) => t@,
                            None => d.text,
                        },
                    };
                    &&& r@ == publish_spec(uri@, now)
                    &&& forall|u: Seq<char>| #[trigger]
                        final(self).doc(u) == (if u == uri@ {
                            Some(now)
                        } else {
                            old(self).doc(u)
                        })
                },
                None => {
                    &&& r@ == StepView::Wait
                    &&& forall|u: Seq<char>| #[trigger] final(self).doc(u) == old(self).doc(u)
                },
            },
    {
        let (language_id, kept) = match self.docs.get(uri) {
            Some(d) => (d.language_id.clone(), d.text.clone()),
            None => {
                return Step::Wait;
            },
        };
        let text = match text {
            Some(t) => t,
            None => kept,
        };
        self.open(uri.to_owned(), language_id, text)
    }

    /// Publish an open document again.
    pub fn save(&self, uri: &str) -> (r: Step)
        ensures
            r@ == (match self.doc(uri@) {
                Some(d) => publish_spec(uri@, d),
                None => StepView::Wait,
            }),
    {
        match self.docs.get(uri) {
            Some(d) => publish(uri, d),
            None => Step::Wait,
        }
    }

    /// Forget an open document and clear its diagnostics.
    pub fn close(&mut self, uri: &str) -> (r: Step)
        ensures
            forall|u: Seq<char>| #[trigger]
                final(self).doc(u) == (if u == uri@ {
                    None
                } else {
                    old(self).doc(u)
                }),
            r@ == (if old(self).doc(uri@) is Some {
                StepView::Clear(uri@)
            } else {
                StepView::Wait
            }),
    {
        let ghost before = *self;
        let gone = self.docs.remove(uri);
        proof {
            assert forall|u: Seq<char>| #[trigger]
                self.doc(u) == (if u == uri@ {
                    None
                } else {
                    before.doc(u)
                }) by {
                assert(self.docs.has(u) <==> (before.docs.has(u) && u != uri@));
            }
        }
        if gone.is_some() {
            Step::Clear { uri: uri.to_owned() }
        } else {
            Step::Wait
        }
    }

    /// What the server does with a notification, and what it knows afterwards.
    pub fn handle(&mut self, event: Event) -> (r: Step)
        ensures
            handled(*old(self), event, *final(self), r@),
    {
        match event {
            Event::Exit => Step::Stop,
            Event::Open { uri, language_id, text } => self.open(uri, language_id, text),
            Event::Change { uri, text } => self.change(uri.as_str(), text),
            Event::Save { uri } => self.save(uri.as_str()),
            Event::Close { uri } => self.close(uri.as_str()),
            Event::Other => Step::Wait,
        }
    }

    /// The text of an open document, for a request about it.
    pub fn text_of(&self, uri: &str) -> (r: Option<&String>)
        ensures
            match r {
                Some(t) => self.doc(uri@) matches Some(d) && d.text == t@,
                None => self.doc(uri@) is None,
            },
    {
        match self.docs.get(uri) {
            Some(d) => Some(&d.text),
            None => None,
        }
    }
}

/// The document at `uri` after an event.
pub open spec fn doc_after(before: State, event: Event, u: Seq<char>) -> Option<DocumentView> {
    match event {
        Event::Open { uri, language_id, text } => if u == uri@ {
            Some(DocumentView { language_id: language_id@, text: text@ })
        } else {
            before.doc(u)
        },
        Event::Change { uri, text } => match before.doc(u) {
            Some(d) => if u == uri@ && text is Some {
                Some(DocumentView { language_id: d.language_id, text: text->0@ })
            } else {
                Some(d)
            },
            None => None,
        },
        Event::Close { uri } => if u == uri@ {
            None
        } else {
            before.doc(u)
        },
        _ => before.doc(u),
    }
}

/// The document that an event is about.
pub open spec fn subject(event: Event) -> Option<Seq<char>> {
    match event {
        Event::Open { uri, .. } => Some(uri@),
        Event::Change { uri, .. } => Some(uri@),
        Event::Save { uri } => Some(uri@),
        Event::Close { uri } => Some(uri@),
        _ => None,
    }
}

/// Whether `step` and `after` are the answer to an event: the server stops on `exit`, publishes
/// the document that an event leaves open, clears one that it closes, and waits otherwise.
pub open spec fn handled(before: State, event: Event, after: State, step: StepView) -> bool {
    &&& forall|u: Seq<char>| #[trigger] after.doc(u) == doc_after(before, event, u)
    &&& step == match subject(event) {
        None => if event is Exit {
            StepView::Stop
        } else {
            StepView::Wait
        },
        Some(uri) => match doc_after(before, event, uri) {
            Some(d) => publish_spec(uri, d),
            None => if before.doc(uri) is Some {
                StepView::Clear(uri)
            } else {
                StepView::Wait
            },
        },
    }
}

/// The diagnostics of a document that was linted: none where it does not parse (mid-edit: clear,
/// don't spam).
pub fn published(text: &str, linted: &Result<Vec<Finding>, String>) -> (r: Vec<Diagnostic>)
    ensures
        diagnostics_view(r@) == (match *linted {
            Ok(fs) => diagnostics_spec(text@, findings_view(fs@)),
            Err(_) => Seq::empty(),
        }),
{
    match linted {
        Ok(fs) => diagnostics_for(text, fs.as_slice()),
        Err(_) => {
            let out: Vec<Diagnostic> = Vec::new();
            assert(diagnostics_view(out@) == Seq::<DiagnosticView>::empty());
            out
        },
    }
}

/// The code actions of a document that was linted: none where it does not parse.
pub fn answered(
    uri: &str,
    text: &str,
    linted: &Result<Vec<Finding>, String>,
    requested: Range,
) -> (r: Vec<CodeAction>)
    ensures
        actions_view(r@) == (match *linted {
            Ok(fs) => quickfixes(uri@, text@, findings_view(fs@), requested),
            Err(_) => Seq::empty(),
        }),
{
    match linted {
        Ok(fs) => code_actions(uri, text, fs.as_slice(), requested),
        Err(_) => {
            let out: Vec<CodeAction> = Vec::new();
            assert(actions_view(out@) == Seq::<CodeActionView>::empty());
            out
        },
    }
}

/// The value of a hexadecimal digit.
pub open spec fn hex_spec(b: u8) -> Option<u8> {
    if 48 <= b <= 57 {
        Some((b - 48) as u8)
    } else if 97 <= b <= 102 {
        Some((b - 97 + 10) as u8)
    } else if 65 <= b <= 70 {
        Some((b - 65 + 10) as u8)
    } else {
        None
    }
}

/// The value of a hexadecimal digit, of either case.
pub fn hex(b: u8) -> (r: Option<u8>)
    ensures
        r == hex_spec(b),
{
    if 48 <= b && b <= 57 {
        Some(b - 48)
    } else if 97 <= b && b <= 102 {
        Some(b - 97 + 10)
    } else if 65 <= b && b <= 70 {
        Some(b - 65 + 10)
    } else {
        None
    }
}

/// Whether an escape `%XX` stands at `i`.
pub open spec fn escape_at(b: Seq<u8>, i: int) -> bool {
    &&& 0 <= i && i + 2 < b.len()
    &&& b[i] == 37
    &&& hex_spec(b[i + 1]) is Some
    &&& hex_spec(b[i + 2]) is Some
}

/// The bytes from `i` on with every escape `%XX` replaced by the byte it stands for.
pub open spec fn unescaped(b: Seq<u8>, i: int) -> Seq<u8>
    decreases b.len() - i,
{
    if i < 0 || i >= b.len() {
        Seq::empty()
    } else if escape_at(b, i) {
        seq![(hex_spec(b[i + 1])->0 * 16 + hex_spec(b[i + 2])->0) as u8] + unescaped(b, i + 3)
    } else {
        seq![b[i]] + unescaped(b, i + 1)
    }
}

/// The bytes of `b` from `from` on, percent-decoded.
fn percent_bytes(b: &[u8], from: usize) -> (r: Vec<u8>)
    requires
        from <= b@.len(),
    ensures
        r@ == unescaped(b@, from as int),
{
    let n: usize = b.len();
    let mut out: Vec<u8> = Vec::new();
    let mut i: usize = from;
    assert(out@ + unescaped(b@, from as int) == unescaped(b@, from as int));
    while i < n
        invariant
            i <= n == b@.len(),
            out@ + unescaped(b@, i as int) == unescaped(b@, from as int),
        decreases n - i,
    {
        let ghost before = out@;
        if b[i] == 37 && n - i > 2 {
            if let Some(h) = hex(b[i + 1]) {
                if let Some(l) = hex(b[i + 2]) {
                    let v: u8 = h * 16 + l;
                    out.push(v);
                    proof {
                        assert(escape_at(b@, i as int));
                        assert(out@ + unescaped(b@, i + 3) == before + (seq![v] + unescaped(
                            b@,
                            i + 3,
                        )));
                    }
                    i += 3;
                    continue;
                }
            }
        }
        out.push(b[i]);
        proof {
            assert(!escape_at(b@, i as int));
            assert(out@ + unescaped(b@, i + 1) == before + (seq![b@[i as int]] + unescaped(
                b@,
                i + 1,
            )));
        }
        i += 1;
    }
    assert(out@ + Seq::<u8>::empty() == out@);
    out
}

/// Minimal `%XX` percent-decoding, sufficient for file URIs (e.g. `%20` → space).
pub fn percent_decode(s: &str) -> (r: String)
    ensures
        r@ == utf8_lossy(unescaped(encode_utf8(s@), 0)),
        valid_utf8(unescaped(encode_utf8(s@), 0)) ==> encode_utf8(r@) == unescaped(
            encode_utf8(s@),
            0,
        ),
{
    let bytes = percent_bytes(s.as_bytes(), 0);
    decode_lossy(&bytes)
}

/// The place of the first `/` at or behind `i`.
pub open spec fn first_slash(b: Seq<u8>, i: int) -> Option<int>
    decreases b.len() - i,
{
    if i < 0 || i >= b.len() {
        None
    } else if b[i] == 47 {
        Some(i)
    } else {
        first_slash(b, i + 1)
    }
}

/// Where the path of a `file://` URI begins: at the first `/` behind the scheme. What stands
/// between is an authority (e.g. `localhost`), which is left out.
pub open spec fn path_start(uri: Seq<u8>) -> Option<int> {
    let scheme = encode_utf8("file://"@);
    if scheme.is_prefix_of(uri) {
        first_slash(uri, scheme.len() as int)
    } else {
        None
    }
}

/// Convert a `file://` URI string to a filesystem path (percent-decoded). Returns
/// `None` for non-`file` schemes or unparseable input, in which case the caller
/// falls back to default lint options.
pub fn uri_to_path(uri: &str) -> (r: Option<String>)
    ensures
        match path_start(encode_utf8(uri@)) {
            Some(i) => {
                let path = unescaped(encode_utf8(uri@), i);
                &&& text_of(r) == Some(utf8_lossy(path))
                &&& valid_utf8(path) ==> encode_utf8(r->0@) == path
            },
            None => r is None,
        },
{
    let b = uri.as_bytes();
    let scheme = "file://".as_bytes();
    let n: usize = b.len();
    let k: usize = scheme.len();
    if n < k {
        return None;
    }
    let mut i: usize = 0;
    while i < k
        invariant
            i <= k <= n,
            k == scheme@.len(),
            n == b@.len(),
            scheme@ == encode_utf8("file://"@),
            b@ == encode_utf8(uri@),
            forall|j: int| 0 <= j < i ==> #[trigger] scheme@[j] == b@[j],
        decreases k - i,
    {
        if b[i] != scheme[i] {
            assert(scheme@[i as int] != b@.subrange(0, k as int)[i as int]);
            return None;
        }
        i += 1;
    }
    assert(scheme@ == b@.subrange(0, k as int));
    while i < n
        invariant
            k <= i <= n,
            n == b@.len(),
            first_slash(b@, k as int) == first_slash(b@, i as int),
            path_start(b@) == first_slash(b@, k as int),
            b@ == encode_utf8(uri@),
        decreases n - i,
    {
        if b[i] == 47 {
            let path = percent_bytes(b, i);
            return Some(decode_lossy(&path));
        }
        i += 1;
    }
    None
}

/// A byte string without `%` decodes to itself.
pub proof fn bytes_without_escapes_decode_to_themselves(b: Seq<u8>, i: int)
    requires
        0 <= i <= b.len(),
        forall|j: int| i <= j < b.len() ==> #[trigger] b[j] != 37,
    ensures
        unescaped(b, i) == b.subrange(i, b.len() as int),
    decreases b.len() - i,
{
    if i < b.len() {
        bytes_without_escapes_decode_to_themselves(b, i + 1);
        assert(b[i] != 37);
        assert(b.subrange(i, b.len() as int) == seq![b[i]] + b.subrange(i + 1, b.len() as int));
    }
}

/// The upper-case hexadecimal digit of a value below sixteen.
pub open spec fn hex_digit(v: int) -> u8 {
    if v < 10 {
        (48 + v) as u8
    } else {
        (55 + v) as u8
    }
}

/// How a byte stands in a URI: as it is where `plain` says so, and as an escape `%XX` elsewhere. A
/// `%` is always escaped.
pub open spec fn percent_encoded_byte(b: u8, plain: spec_fn(u8) -> bool) -> Seq<u8> {
    if plain(b) && b != 37 {
        seq![b]
    } else {
        seq![37u8, hex_digit(b as int / 16), hex_digit(b as int % 16)]
    }
}

/// How bytes stand in a URI.
pub open spec fn percent_encoded(b: Seq<u8>, plain: spec_fn(u8) -> bool) -> Seq<u8>
    decreases b.len(),
{
    if b.len() == 0 {
        Seq::empty()
    } else {
        percent_encoded_byte(b[0], plain) + percent_encoded(b.skip(1), plain)
    }
}

proof fn lemma_unescaped_behind(a: Seq<u8>, b: Seq<u8>, i: int)
    requires
        0 <= i <= b.len(),
    ensures
        unescaped(a + b, a.len() + i) == unescaped(b, i),
    decreases b.len() - i,
{
    if i < b.len() {
        let all = a + b;
        let k = a.len() + i;
        assert(all[k] == b[i]);
        if i + 2 < b.len() {
            assert(all[k + 1] == b[i + 1]);
            assert(all[k + 2] == b[i + 2]);
        }
        assert(escape_at(all, k) == escape_at(b, i));
        if escape_at(b, i) {
            lemma_unescaped_behind(a, b, i + 3);
        } else {
            lemma_unescaped_behind(a, b, i + 1);
        }
    }
}

/// Percent-decoding undoes percent-encoding, whichever bytes the encoding escapes.
pub proof fn decoding_undoes_encoding(b: Seq<u8>, plain: spec_fn(u8) -> bool)
    ensures
        unescaped(percent_encoded(b, plain), 0) == b,
    decreases b.len(),
{
    let e = percent_encoded(b, plain);
    if b.len() > 0 {
        let rest = percent_encoded(b.skip(1), plain);
        let head = percent_encoded_byte(b[0], plain);
        decoding_undoes_encoding(b.skip(1), plain);
        lemma_unescaped_behind(head, rest, 0);
        assert(e == head + rest);
        assert(e[0] == head[0]);
        if head.len() == 3 {
            assert(e[1] == head[1]);
            assert(e[2] == head[2]);
            let h = b[0] as int / 16;
            let l = b[0] as int % 16;
            assert(0 <= h < 16 && 0 <= l < 16 && h * 16 + l == b[0]);
            assert(hex_spec(hex_digit(h)) == Some(h as u8));
            assert(hex_spec(hex_digit(l)) == Some(l as u8));
            assert(escape_at(e, 0));
        }
        assert(unescaped(e, 0) == seq![b[0]] + b.skip(1));
        assert(seq![b[0]] + b.skip(1) == b);
    } else {
        assert(unescaped(e, 0) == b);
    }
}

/// An absolute path survives its `file://` URI, whichever bytes but `/` the URI escapes.
pub proof fn a_path_survives_its_uri(path: Seq<u8>, plain: spec_fn(u8) -> bool)
    requires
        path.len() > 0,
        path[0] == 47,
        plain(47),
    ensures
        ({
            let uri = encode_utf8("file://"@) + percent_encoded(path, plain);
            &&& path_start(uri) is Some
            &&& unescaped(uri, path_start(uri)->0) == path
        }),
{
    let scheme = encode_utf8("file://"@);
    let e = percent_encoded(path, plain);
    let uri = scheme + e;
    assert(e[0] == 47);
    assert(scheme =~= uri.subrange(0, scheme.len() as int));
    assert(uri[scheme.len() as int] == 47);
    assert(first_slash(uri, scheme.len() as int) == Some(scheme.len() as int));
    decoding_undoes_encoding(path, plain);
    lemma_unescaped_behind(scheme, e, 0);
}

/// A document that is closed is forgotten, and opening it again shows only the new text.
pub proof fn closing_forgets_a_document(
    a: State,
    b: State,
    c: State,
    close: Event,
    open: Event,
    s1: StepView,
    s2: StepView,
    uri: Seq<char>,
)
    requires
        close is Close,
        open is Open,
        subject(close) == Some(uri),
        subject(open) == Some(uri),
        handled(a, close, b, s1),
        handled(b, open, c, s2),
    ensures
        b.doc(uri) is None,
        forall|u: Seq<char>| u != uri ==> c.doc(u) == #[trigger] a.doc(u),
        c.doc(uri) == doc_after(a, open, uri),
{
    assert(b.doc(uri) == doc_after(a, close, uri));
    assert(c.doc(uri) == doc_after(b, open, uri));
    assert forall|u: Seq<char>| u != uri implies c.doc(u) == #[trigger] a.doc(u) by {
        assert(b.doc(u) == doc_after(a, close, u));
        assert(c.doc(u) == doc_after(b, open, u));
    }
}

/// An event changes no document but the one it is about.
pub proof fn an_event_touches_its_document_alone(
    before: State,
    event: Event,
    after: State,
    step: StepView,
    u: Seq<char>,
)
    requires
        handled(before, event, after, step),
        subject(event) != Some(u),
    ensures
        after.doc(u) == before.doc(u),
{
    assert(after.doc(u) == doc_after(before, event, u));
}

} // verus!
