use vstd::prelude::*;

verus! {

/// A value expression of the configuration language, as written.
#[derive(Debug, PartialEq)]
pub enum Expr {
    Object(Vec<Entry>),
    Array(Vec<Element>),
    /// The parts of a string literal, between its quotes.
    Str(Vec<Piece>),
    Integer(i64),
    /// The text of a float literal.
    Float(String),
    Boolean(bool),
    Null,
    /// A reference to an input, with its `$` sigil.
    Input(String),
}

/// One entry of an object literal.
#[derive(Debug, PartialEq)]
pub enum Entry {
    /// `path = value`, the path split at its dots, quotes and escapes removed.
    Pair(Vec<String>, Expr),
    /// `..$name`
    Spread(String),
}

/// One element of an array literal.
#[derive(Debug, PartialEq)]
pub enum Element {
    Item(Expr),
    /// `..$name`
    Spread(String),
}

/// One part of a string literal.
#[derive(Debug, PartialEq)]
pub enum Piece {
    /// The raw text of one character: the character itself or an escape.
    Char(Vec<char>),
    /// An interpolated reference, with its `$` sigil.
    Input(String),
}

/// A whole document: the declarations of its `let { } in` block, in order,
/// and the entries of its top-level object.
#[derive(Debug, PartialEq)]
pub struct Document {
    pub inputs: Vec<(String, Expr)>,
    pub body: Vec<Entry>,
}

/// The model of an expression: strings and names as character sequences.
pub ghost enum SynExpr {
    Object(Seq<SynEntry>),
    Array(Seq<SynElement>),
    Str(Seq<SynPiece>),
    Integer(i64),
    Float(Seq<char>),
    Boolean(bool),
    Null,
    Input(Seq<char>),
}

pub ghost enum SynEntry {
    Pair(Seq<Seq<char>>, SynExpr),
    Spread(Seq<char>),
}

pub ghost enum SynElement {
    Item(SynExpr),
    Spread(Seq<char>),
}

pub ghost enum SynPiece {
    Char(Seq<char>),
    Input(Seq<char>),
}

/// The model of a document.
pub ghost struct SynDocument {
    pub inputs: Seq<(Seq<char>, SynExpr)>,
    pub body: Seq<SynEntry>,
}

/// The model of a path.
pub open spec fn path_view(p: Seq<String>) -> Seq<Seq<char>> {
    p.map_values(|s: String| s@)
}

impl Expr {
    pub open spec fn view(&self) -> SynExpr
        decreases self,
    {
        match self {
            Expr::Object(es) => SynExpr::Object(
                Seq::new(
                    es.len() as nat,
                    |i: int|
                        if 0 <= i < es.len() {
                            es[i].view()
                        } else {
                            SynEntry::Spread(Seq::empty())
                        },
                ),
            ),
            Expr::Array(xs) => SynExpr::Array(
                Seq::new(
                    xs.len() as nat,
                    |i: int|
                        if 0 <= i < xs.len() {
                            xs[i].view()
                        } else {
                            SynElement::Spread(Seq::empty())
                        },
                ),
            ),
            Expr::Str(ps) => SynExpr::Str(pieces_model(ps@)),
            Expr::Integer(n) => SynExpr::Integer(*n),
            Expr::Float(s) => SynExpr::Float(s@),
            Expr::Boolean(b) => SynExpr::Boolean(*b),
            Expr::Null => SynExpr::Null,
            Expr::Input(n) => SynExpr::Input(n@),
        }
    }
}

impl Entry {
    pub open spec fn view(&self) -> SynEntry
        decreases self,
    {
        match self {
            Entry::Pair(p, e) => SynEntry::Pair(path_view(p@), e.view()),
            Entry::Spread(n) => SynEntry::Spread(n@),
        }
    }
}

impl Element {
    pub open spec fn view(&self) -> SynElement
        decreases self,
    {
        match self {
            Element::Item(e) => SynElement::Item(e.view()),
            Element::Spread(n) => SynElement::Spread(n@),
        }
    }
}

impl Piece {
    pub open spec fn view(&self) -> SynPiece {
        match self {
            Piece::Char(raw) => SynPiece::Char(raw@),
            Piece::Input(n) => SynPiece::Input(n@),
        }
    }
}

pub open spec fn entries_model(es: Seq<Entry>) -> Seq<SynEntry> {
    Seq::new(es.len(), |i: int| es[i]@)
}

pub open spec fn elements_model(xs: Seq<Element>) -> Seq<SynElement> {
    Seq::new(xs.len(), |i: int| xs[i]@)
}

pub open spec fn pieces_model(ps: Seq<Piece>) -> Seq<SynPiece> {
    Seq::new(ps.len(), |i: int| ps[i]@)
}

pub open spec fn inputs_model(ins: Seq<(String, Expr)>) -> Seq<(Seq<char>, SynExpr)> {
    Seq::new(ins.len(), |i: int| (ins[i].0@, ins[i].1@))
}

impl Document {
    pub open spec fn view(&self) -> SynDocument {
        SynDocument { inputs: inputs_model(self.inputs@), body: entries_model(self.body@) }
    }
}

pub proof fn lemma_object_model(es: Vec<Entry>)
    ensures
        Expr::Object(es)@ == SynExpr::Object(entries_model(es@)),
{
    assert(Expr::Object(es)@->Object_0 =~= entries_model(es@));
}

pub proof fn lemma_array_model(xs: Vec<Element>)
    ensures
        Expr::Array(xs)@ == SynExpr::Array(elements_model(xs@)),
{
    assert(Expr::Array(xs)@->Array_0 =~= elements_model(xs@));
}

} // verus!
