use pretty::RcDoc;
use vstd::prelude::*;

verus! {

/// One fragment of a document.
pub enum Piece {
    /// Literal text, written as it stands.
    Text(Seq<char>),
    /// A break: a space where its group is laid out on one line, a new line
    /// otherwise.
    Line,
    /// A break: nothing where its group is laid out on one line, a new line
    /// otherwise.
    TightLine,
}

/// `pretty::RcDoc`, the document type of the `pretty` crate. Nothing inside
/// a document is visible here: what is known of one is what the functions
/// below say of it.
#[verifier::external_type_specification]
#[verifier::external_body]
#[verifier::reject_recursive_types(A)]
pub struct ExRcDoc<'a, A>(RcDoc<'a, A>);

/// The text and break fragments that a document of the `pretty` crate is
/// made of, left to right.
pub uninterp spec fn doc_pieces(d: RcDoc<'static, ()>) -> Seq<Piece>;

/// Whether a document of the `pretty` crate is made of text and break
/// fragments alone: no group, no indentation, nothing else.
pub uninterp spec fn doc_is_plain(d: RcDoc<'static, ()>) -> bool;

/// What a fragment is written as where no group encloses it: a break is a
/// new line.
pub open spec fn piece_text(p: Piece) -> Seq<char> {
    match p {
        Piece::Text(s) => s,
        Piece::Line => seq!['\n'],
        Piece::TightLine => seq!['\n'],
    }
}

/// The layout of fragments that no group encloses: each as `piece_text`
/// writes it, one after the other.
pub open spec fn broken_text(pieces: Seq<Piece>) -> Seq<char>
    decreases pieces.len(),
{
    if pieces.len() == 0 {
        Seq::empty()
    } else {
        broken_text(pieces.drop_last()) + piece_text(pieces.last())
    }
}

/// The fragments of a text: the text itself, and nothing where it is empty.
pub open spec fn text_pieces(s: Seq<char>) -> Seq<Piece> {
    if s.len() == 0 {
        Seq::empty()
    } else {
        seq![Piece::Text(s)]
    }
}

/// `pretty::RcDoc::text`: a plain document that holds the text as its one
/// fragment, and no fragment where the text is empty.
#[verifier::external_body]
pub(crate) fn text(s: &str) -> (d: RcDoc<'static, ()>)
    ensures
        doc_is_plain(d),
        doc_pieces(d) == text_pieces(s@),
{
    RcDoc::text(s.to_string())
}

/// `pretty::RcDoc::space`: a plain document whose one fragment is the text
/// of a single space.
#[verifier::external_body]
pub(crate) fn space() -> (d: RcDoc<'static, ()>)
    ensures
        doc_is_plain(d),
        doc_pieces(d) == seq![Piece::Text(" "@)],
{
    RcDoc::space()
}

/// `pretty::RcDoc::line`: a plain document whose one fragment is a break
/// that is a space on one line.
#[verifier::external_body]
pub(crate) fn line() -> (d: RcDoc<'static, ()>)
    ensures
        doc_is_plain(d),
        doc_pieces(d) == seq![Piece::Line],
{
    RcDoc::line()
}

/// `pretty::RcDoc::line_`: a plain document whose one fragment is a break
/// that is nothing on one line.
#[verifier::external_body]
pub(crate) fn line_() -> (d: RcDoc<'static, ()>)
    ensures
        doc_is_plain(d),
        doc_pieces(d) == seq![Piece::TightLine],
{
    RcDoc::line_()
}

/// `pretty::RcDoc::append`: the fragments of the first document followed by
/// those of the second; plain exactly when both are.
#[verifier::external_body]
pub(crate) fn append(a: RcDoc<'static, ()>, b: RcDoc<'static, ()>) -> (d: RcDoc<'static, ()>)
    ensures
        doc_is_plain(d) == (doc_is_plain(a) && doc_is_plain(b)),
        doc_pieces(d) == doc_pieces(a) + doc_pieces(b),
{
    a.append(b)
}

/// `pretty::Doc::render` into a byte vector, read back as a string: a plain
/// document has no group, so at any width each of its breaks is a new line
/// and nothing is indented.
#[verifier::external_body]
pub(crate) fn render(d: &RcDoc<'static, ()>, width: usize) -> (s: String)
    requires
        doc_is_plain(*d),
    ensures
        s@ == broken_text(doc_pieces(*d)),
{
    let mut w = Vec::new();
    d.render(width, &mut w).unwrap();
    String::from_utf8(w).unwrap()
}

/// The layout of a single fragment is what the fragment is written as.
pub proof fn lemma_broken_text_one(p: Piece)
    ensures
        broken_text(seq![p]) == piece_text(p),
{
    let one = seq![p];
    assert(one.drop_last() =~= Seq::<Piece>::empty());
    assert(broken_text(one.drop_last()) =~= Seq::<char>::empty());
    assert(broken_text(one) =~= piece_text(p));
}

/// The layout of the fragments of a text is the text.
pub proof fn lemma_broken_text_of_text(s: Seq<char>)
    ensures
        broken_text(text_pieces(s)) == s,
{
    if s.len() == 0 {
        assert(broken_text(text_pieces(s)) =~= s);
    } else {
        lemma_broken_text_one(Piece::Text(s));
    }
}

/// The layout of two runs of fragments is the layout of the first followed
/// by that of the second.
pub proof fn lemma_broken_text_concat(a: Seq<Piece>, b: Seq<Piece>)
    ensures
        broken_text(a + b) == broken_text(a) + broken_text(b),
    decreases b.len(),
{
    if b.len() == 0 {
        assert(a + b =~= a);
        assert(broken_text(a) + broken_text(b) =~= broken_text(a));
    } else {
        lemma_broken_text_concat(a, b.drop_last());
        assert((a + b).drop_last() =~= a + b.drop_last());
        assert((a + b).last() == b.last());
        assert(broken_text(a + b) =~= broken_text(a) + broken_text(b));
    }
}

} // verus!
