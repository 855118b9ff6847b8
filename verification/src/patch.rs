//! The node's patch file: YAML documents with a line `---` between each two of them, of which the
//! `awg`, `router` and `mikrotik` ones are read. Any other is passed over.

use crate::credentials::RouterCredentials;
use crate::documents::{AwgConfig, RouterConfig};
use crate::error::{outcome, Error, ErrorView};
use crate::rows::same_text;
use crate::text::{
    find_text_from, join, lemma_join_head, owned, split_text, strip_prefix, text_pieces, trim,
    trimmed, without_prefix,
};
use vstd::prelude::*;
use vstd::string::*;

verus! {

/// What the patch file of a node says.
pub struct PatchFile {
    pub awg: AwgConfig,
    pub router: RouterConfig,
    pub credentials: RouterCredentials,
}

/// A document, as far as it says what it is and which files it holds. One that is no such document
/// says nothing and holds none.
#[derive(Debug)]
pub struct Envelope {
    pub kind: Option<String>,
    pub name: Option<String>,
    /// The contents of the files.
    pub config_files: Vec<String>,
}

/// What an [`Envelope`] is.
pub struct EnvelopeView {
    pub kind: Option<Seq<char>>,
    pub name: Option<Seq<char>>,
    pub config_files: Seq<Seq<char>>,
}

impl DeepView for Envelope {
    type V = EnvelopeView;

    open spec fn deep_view(&self) -> EnvelopeView {
        EnvelopeView {
            kind: self.kind.deep_view(),
            name: self.name.deep_view(),
            config_files: self.config_files.deep_view(),
        }
    }
}

impl Default for Envelope {
    /// A document that says nothing.
    fn default() -> (r: Envelope)
        ensures
            r.kind is None,
            r.name is None,
            r.config_files@.len() == 0,
    {
        Envelope { kind: None, name: None, config_files: Vec::new() }
    }
}

/// Those of the first `n` pieces that are not blank, without the white space around them.
pub open spec fn filled(pieces: Seq<Seq<char>>, n: int) -> Seq<Seq<char>>
    decreases n,
{
    if n <= 0 {
        Seq::empty()
    } else {
        let before = filled(pieces, n - 1);
        let piece = trim(pieces[n - 1]);
        if piece.len() > 0 {
            before.push(piece)
        } else {
            before
        }
    }
}

/// The documents of a patch file.
pub open spec fn segments_of(raw: Seq<char>) -> Seq<Seq<char>> {
    let body = match strip_prefix(raw, "---\n"@) {
        Some(rest) => rest,
        None => raw,
    };
    let pieces = split_text(body, "\n---\n"@);
    filled(pieces, pieces.len() as int)
}

/// Splits a patch file into its documents.
pub fn split_segments(raw: &str) -> (r: Vec<String>)
    ensures
        r.deep_view() == segments_of(raw@),
{
    proof {
        reveal_strlit("\n---\n");
    }
    let body = match without_prefix(raw, "---\n") {
        Some(rest) => rest,
        None => owned(raw),
    };
    let pieces = text_pieces(body.as_str(), "\n---\n");
    let ghost d = pieces.deep_view();
    let mut out: Vec<String> = Vec::new();
    let mut i: usize = 0;
    assert(out.deep_view() =~= Seq::<Seq<char>>::empty());
    while i < pieces.len()
        invariant
            i <= pieces@.len(),
            d == pieces.deep_view(),
            out.deep_view() == filled(d, i as int),
        decreases pieces@.len() - i,
    {
        let ghost before = out.deep_view();
        assert(d[i as int] == pieces[i as int]@);
        let piece = trimmed(pieces[i].as_str());
        if !piece.as_str().is_empty() {
            let ghost text = piece@;
            out.push(piece);
            assert(out.deep_view() =~= before.push(text));
        }
        i = i + 1;
    }
    out
}

/// Whether a document is the one with this name.
pub open spec fn is_document(e: EnvelopeView, name: Seq<char>) -> bool {
    e.kind == Some("ExtensionServiceConfig"@) && e.name == Some(name)
}

/// The content of the first file of the first document from `i` on with this name.
pub open spec fn content_from(envelopes: Seq<EnvelopeView>, name: Seq<char>, i: int) -> Result<
    Seq<char>,
    ErrorView,
>
    decreases envelopes.len() - i,
{
    if i < 0 || i >= envelopes.len() {
        Err(ErrorView::NoDocument { name })
    } else if is_document(envelopes[i], name) {
        if envelopes[i].config_files.len() > 0 {
            Ok(envelopes[i].config_files[0])
        } else {
            Err(ErrorView::NoConfigFiles { name })
        }
    } else {
        content_from(envelopes, name, i + 1)
    }
}

/// The content of the first file of the document with this name.
pub fn segment_content(envelopes: &[Envelope], name: &str) -> (r: Result<String, Error>)
    ensures
        outcome(r) == content_from(envelopes.deep_view(), name@, 0),
{
    let ghost d = envelopes.deep_view();
    let kind = Some(owned("ExtensionServiceConfig"));
    let wanted = Some(owned(name));
    let mut i: usize = 0;
    while i < envelopes.len()
        invariant
            i <= envelopes@.len(),
            d == envelopes.deep_view(),
            kind.deep_view() == Some("ExtensionServiceConfig"@),
            wanted.deep_view() == Some(name@),
            content_from(d, name@, 0) == content_from(d, name@, i as int),
        decreases envelopes@.len() - i,
    {
        let envelope = &envelopes[i];
        assert(d[i as int] == envelope.deep_view());
        if same_text(&envelope.kind, &kind) && same_text(&envelope.name, &wanted) {
            if envelope.config_files.len() > 0 {
                assert(d[i as int].config_files[0] == envelope.config_files[0]@);
                return Ok(envelope.config_files[0].clone());
            }
            return Err(Error::NoConfigFiles { name: owned(name) });
        }
        i = i + 1;
    }
    Err(Error::NoDocument { name: owned(name) })
}

/// Whether one of the documents has this name.
pub open spec fn has_document(envelopes: Seq<EnvelopeView>, name: Seq<char>) -> bool {
    exists|i: int| 0 <= i < envelopes.len() && is_document(#[trigger] envelopes[i], name)
}

/// A document is missed exactly if none has its name, however many others there are.
pub proof fn law_missing_document(envelopes: Seq<EnvelopeView>, name: Seq<char>)
    ensures
        content_from(envelopes, name, 0) == Err::<Seq<char>, ErrorView>(
            ErrorView::NoDocument { name },
        ) <==> !has_document(envelopes, name),
{
    lemma_missing_document(envelopes, name, 0);
}

proof fn lemma_missing_document(envelopes: Seq<EnvelopeView>, name: Seq<char>, i: int)
    requires
        0 <= i <= envelopes.len(),
    ensures
        content_from(envelopes, name, i) == Err::<Seq<char>, ErrorView>(
            ErrorView::NoDocument { name },
        ) <==> forall|k: int|
            i <= k < envelopes.len() ==> !is_document(#[trigger] envelopes[k], name),
    decreases envelopes.len() - i,
{
    if i < envelopes.len() {
        lemma_missing_document(envelopes, name, i + 1);
    }
}

/// A document that is not the one that is looked for makes no difference, wherever it stands.
pub proof fn law_foreign_document(
    before: Seq<EnvelopeView>,
    foreign: EnvelopeView,
    after: Seq<EnvelopeView>,
    name: Seq<char>,
)
    requires
        !is_document(foreign, name),
    ensures
        content_from(before.push(foreign) + after, name, 0) == content_from(
            before + after,
            name,
            0,
        ),
{
    lemma_foreign_document(before, foreign, after, name, 0);
}

proof fn lemma_foreign_document(
    before: Seq<EnvelopeView>,
    foreign: EnvelopeView,
    after: Seq<EnvelopeView>,
    name: Seq<char>,
    i: int,
)
    requires
        !is_document(foreign, name),
        0 <= i <= before.len(),
    ensures
        content_from(before.push(foreign) + after, name, i) == content_from(
            before + after,
            name,
            i,
        ),
    decreases before.len() - i,
{
    let long = before.push(foreign) + after;
    let short = before + after;
    if i < before.len() {
        assert(long[i] == short[i]);
        lemma_foreign_document(before, foreign, after, name, i + 1);
    } else {
        assert(long[i] == foreign);
        lemma_same_tail(long, short, name, i + 1, i);
    }
}

proof fn lemma_same_tail(
    a: Seq<EnvelopeView>,
    b: Seq<EnvelopeView>,
    name: Seq<char>,
    i: int,
    j: int,
)
    requires
        0 <= i <= a.len(),
        0 <= j <= b.len(),
        a.skip(i) =~= b.skip(j),
    ensures
        content_from(a, name, i) == content_from(b, name, j),
    decreases a.len() - i,
{
    assert(a.skip(i).len() == a.len() - i && b.skip(j).len() == b.len() - j);
    if i < a.len() {
        assert(a.skip(i)[0] == a[i] && b.skip(j)[0] == b[j]);
        assert(a.skip(i).skip(1) =~= a.skip(i + 1));
        assert(b.skip(j).skip(1) =~= b.skip(j + 1));
        lemma_same_tail(a, b, name, i + 1, j + 1);
    }
}

/// The content is that of the first file of the first document of the kind
/// `ExtensionServiceConfig` with the name; such a document without a file is an error.
pub proof fn law_content(envelopes: Seq<EnvelopeView>, name: Seq<char>, i: int)
    requires
        0 <= i < envelopes.len(),
        envelopes[i].kind == Some("ExtensionServiceConfig"@) && envelopes[i].name == Some(name),
        forall|k: int|
            0 <= k < i ==> (#[trigger] envelopes[k]).kind != Some("ExtensionServiceConfig"@)
                || envelopes[k].name != Some(name),
    ensures
        content_from(envelopes, name, 0) == (if envelopes[i].config_files.len() > 0 {
            Ok(envelopes[i].config_files[0])
        } else {
            Err(ErrorView::NoConfigFiles { name })
        }),
{
    lemma_content(envelopes, name, i, 0);
}

proof fn lemma_content(envelopes: Seq<EnvelopeView>, name: Seq<char>, i: int, from: int)
    requires
        0 <= from <= i < envelopes.len(),
        is_document(envelopes[i], name),
        forall|k: int| 0 <= k < i ==> !is_document(#[trigger] envelopes[k], name),
    ensures
        content_from(envelopes, name, from) == (if envelopes[i].config_files.len() > 0 {
            Ok(envelopes[i].config_files[0])
        } else {
            Err(ErrorView::NoConfigFiles { name })
        }),
    decreases i - from,
{
    if from < i {
        lemma_content(envelopes, name, i, from + 1);
    }
}

/// Whether some pieces, with a separator of documents between each two of them, are the text, and
/// none of them holds the separator.
pub open spec fn are_pieces(text: Seq<char>, pieces: Seq<Seq<char>>) -> bool {
    &&& join(pieces, "\n---\n"@) == text
    &&& forall|k: int, at: int|
        0 <= k < pieces.len() && 0 <= at && at + 5 <= pieces[k].len()
            ==> #[trigger] pieces[k].subrange(at, at + 5) != "\n---\n"@
}

proof fn lemma_find_text(s: Seq<char>, pattern: Seq<char>, from: int)
    requires
        pattern.len() > 0,
        0 <= from <= s.len(),
    ensures
        from <= find_text_from(s, pattern, from) <= s.len(),
        find_text_from(s, pattern, from) < s.len() ==> find_text_from(s, pattern, from)
            + pattern.len() <= s.len() && s.subrange(
            find_text_from(s, pattern, from),
            find_text_from(s, pattern, from) + pattern.len(),
        ) == pattern,
        forall|k: int|
            from <= k < find_text_from(s, pattern, from) && k + pattern.len() <= s.len()
                ==> #[trigger] s.subrange(k, k + pattern.len()) != pattern,
    decreases s.len() - from,
{
    if from + pattern.len() <= s.len() && s.subrange(from, from + pattern.len()) != pattern {
        lemma_find_text(s, pattern, from + 1);
    }
}

proof fn lemma_pieces(s: Seq<char>)
    ensures
        split_text(s, "\n---\n"@).len() > 0,
        are_pieces(s, split_text(s, "\n---\n"@)),
    decreases s.len(),
{
    let p = "\n---\n"@;
    reveal_strlit("\n---\n");
    assert(p.len() == 5);
    lemma_find_text(s, p, 0);
    let at = find_text_from(s, p, 0);
    let pieces = split_text(s, p);
    if at < s.len() {
        let head = s.subrange(0, at);
        let rest = s.subrange(at + 5, s.len() as int);
        lemma_pieces(rest);
        let more = split_text(rest, p);
        assert(pieces =~= seq![head] + more);
        assert(pieces.skip(1) =~= more);
        lemma_join_head(pieces, p);
        assert(s =~= head + s.subrange(at, at + 5) + rest);
        assert forall|k: int, x: int|
            0 <= k < pieces.len() && 0 <= x && x + 5 <= pieces[k].len()
                implies #[trigger] pieces[k].subrange(x, x + 5) != p by {
            if k == 0 {
                assert(head.subrange(x, x + 5) =~= s.subrange(x, x + 5));
            } else {
                assert(pieces[k] == more[k - 1]);
                assert(more[k - 1].subrange(x, x + 5) != p);
            }
        }
    } else {
        assert(pieces =~= seq![s]);
        assert forall|k: int, x: int|
            0 <= k < pieces.len() && 0 <= x && x + 5 <= pieces[k].len()
                implies #[trigger] pieces[k].subrange(x, x + 5) != p by {
            assert(s.subrange(x, x + 5) != p);
        }
    }
}

/// The pieces without the white space around them.
pub open spec fn trimmed_pieces(pieces: Seq<Seq<char>>) -> Seq<Seq<char>> {
    Seq::new(pieces.len(), |k: int| trim(pieces[k]))
}

/// What is not empty.
pub open spec fn not_empty() -> spec_fn(Seq<char>) -> bool {
    |d: Seq<char>| d.len() > 0
}

proof fn lemma_filled(pieces: Seq<Seq<char>>, n: int)
    requires
        0 <= n <= pieces.len(),
    ensures
        filled(pieces, n) == trimmed_pieces(pieces).take(n).filter(not_empty()),
    decreases n,
{
    reveal(Seq::filter);
    let all = trimmed_pieces(pieces);
    if n > 0 {
        lemma_filled(pieces, n - 1);
        assert(all.take(n).drop_last() =~= all.take(n - 1));
        assert(all.take(n).last() == trim(pieces[n - 1]));
    }
}

/// A patch file, less a separator at its start, is taken apart at every separator: there are pieces
/// that make it up, of which none holds a separator, and the documents are these pieces in their
/// order, without the white space around them, but for blank ones.
pub proof fn law_segments(raw: Seq<char>) -> (pieces: Seq<Seq<char>>)
    ensures
        ({
            let start = "---\n"@;
            let body = if start.is_prefix_of(raw) {
                raw.skip(start.len() as int)
            } else {
                raw
            };
            &&& are_pieces(body, pieces)
            &&& segments_of(raw) == trimmed_pieces(pieces).filter(not_empty())
        }),
{
    let body = match strip_prefix(raw, "---\n"@) {
        Some(rest) => rest,
        None => raw,
    };
    lemma_pieces(body);
    let pieces = split_text(body, "\n---\n"@);
    lemma_filled(pieces, pieces.len() as int);
    assert(trimmed_pieces(pieces).take(pieces.len() as int) =~= trimmed_pieces(pieces));
    pieces
}

} // verus!
