use crate::ast::{Constant, ConstantView, Name, NameView, Program, ProgramView, Term, TermView};
use crate::decimal::{
    int_decimal, lemma_nat_decimal_digits, nat_decimal, signed_decimal, unsigned_decimal,
};
use crate::doc::{
    append, broken_text, doc_is_plain, doc_pieces, line, line_, render, space, text, text_pieces,
    Piece,
};
use crate::hexadecimal::{encode, hex_lower};
use pretty::RcDoc;
use vstd::pervasive::unreached;
use vstd::prelude::*;
use vstd::string::*;

verus! {

/// The one fragment of a text that is known not to be empty.
pub open spec fn word(s: Seq<char>) -> Seq<Piece> {
    seq![Piece::Text(s)]
}

/// How an identifier is written: its label, an underscore, and its counter
/// in decimal. The counter is always written.
pub open spec fn name_text(name: NameView) -> Seq<char> {
    name.text + "_"@ + int_decimal(name.unique)
}

/// How a version is written: its three numbers in decimal, with a dot
/// between them.
pub open spec fn version_text(version: (nat, nat, nat)) -> Seq<char> {
    nat_decimal(version.0) + "."@ + nat_decimal(version.1) + "."@ + nat_decimal(version.2)
}

/// The keyword of a literal's kind. A character literal has none.
pub open spec fn constant_keyword(constant: ConstantView) -> Seq<char>
    recommends
        constant.renderable(),
{
    match constant {
        ConstantView::Integer(_) => "integer"@,
        ConstantView::ByteString(_) => "bytestring"@,
        ConstantView::String(_) => "string"@,
        ConstantView::Char(_) => Seq::empty(),
        ConstantView::Unit => "unit"@,
        ConstantView::Bool(_) => "bool"@,
    }
}

/// How the value of a literal is written: an integer in decimal, bytes in
/// lowercase hexadecimal, a string as it stands, with no quotes and nothing
/// escaped. A character literal has no written form.
pub open spec fn constant_value(constant: ConstantView) -> Seq<char>
    recommends
        constant.renderable(),
{
    match constant {
        ConstantView::Integer(i) => int_decimal(i),
        ConstantView::ByteString(bytes) => hex_lower(bytes),
        ConstantView::String(s) => s,
        ConstantView::Char(_) => Seq::empty(),
        ConstantView::Unit => "()"@,
        ConstantView::Bool(b) => if b {
            "true"@
        } else {
            "false"@
        },
    }
}

/// The document of a literal: the keyword of its kind, one space that is
/// never a break, and its value.
pub open spec fn constant_pieces(constant: ConstantView) -> Seq<Piece>
    recommends
        constant.renderable(),
{
    word(constant_keyword(constant)) + word(" "@) + text_pieces(constant_value(constant))
}

/// The document of a term. A variable is its identifier alone. An
/// application is its two terms in square brackets. Every other form stands
/// in round brackets behind its keyword, a lambda behind its parameter. In
/// every bracketed form a break that is nothing on one line follows the
/// opening bracket and precedes the closing one. A break that is a space on
/// one line parts what stands between them, but in a literal: there a space
/// that is never a break parts `con` and the literal.
pub open spec fn term_pieces(term: TermView) -> Seq<Piece>
    recommends
        term.renderable(),
    decreases term,
{
    match term {
        TermView::Var(name) => word(name_text(name)),
        TermView::Delay(inner) => word("("@) + seq![Piece::TightLine] + word("delay"@)
            + seq![Piece::Line] + term_pieces(*inner) + seq![Piece::TightLine] + word(")"@),
        TermView::Lambda { parameter_name, body } => word("("@) + seq![Piece::TightLine] + word(
            name_text(parameter_name),
        ) + seq![Piece::Line] + term_pieces(*body) + seq![Piece::TightLine] + word(")"@),
        TermView::Apply { function, argument } => word("["@) + seq![Piece::TightLine]
            + term_pieces(*function) + seq![Piece::Line] + term_pieces(*argument)
            + seq![Piece::TightLine] + word("]"@),
        TermView::Constant(constant) => word("("@) + seq![Piece::TightLine] + word("con"@) + word(
            " "@,
        ) + constant_pieces(constant) + seq![Piece::TightLine] + word(")"@),
        TermView::Force(inner) => word("("@) + seq![Piece::TightLine] + word("force"@)
            + seq![Piece::Line] + term_pieces(*inner) + seq![Piece::TightLine] + word(")"@),
        TermView::Error => word("("@) + seq![Piece::TightLine] + word("error"@)
            + seq![Piece::TightLine] + word(")"@),
        TermView::Builtin(name) => word("("@) + seq![Piece::TightLine] + word("builtin"@)
            + seq![Piece::Line] + text_pieces(name) + seq![Piece::TightLine] + word(")"@),
    }
}

/// The document of a program: the keyword `program`, the version and the
/// term in round brackets, with a break before the version, before the term
/// and before the closing bracket.
pub open spec fn program_pieces(program: ProgramView) -> Seq<Piece>
    recommends
        program.renderable(),
{
    word("("@) + word("program"@) + seq![Piece::Line] + word(version_text(program.version))
        + seq![Piece::Line] + term_pieces(program.term) + seq![Piece::TightLine] + word(")"@)
}

/// The text of a literal: its document laid out.
pub open spec fn constant_text(constant: ConstantView) -> Seq<char>
    recommends
        constant.renderable(),
{
    broken_text(constant_pieces(constant))
}

/// The text of a term: its document laid out with every break taken.
pub open spec fn term_text(term: TermView) -> Seq<char>
    recommends
        term.renderable(),
{
    broken_text(term_pieces(term))
}

/// The text of a program: its document laid out with every break taken.
pub open spec fn program_text(program: ProgramView) -> Seq<char>
    recommends
        program.renderable(),
{
    broken_text(program_pieces(program))
}

/// The width that programs are laid out to.
pub const WIDTH: usize = 20;

/// The written form of an identifier.
pub fn identifier(name: &Name) -> (s: String)
    ensures
        s@ == name_text(name@),
        s@.len() > 0,
{
    let mut s = name.text.clone();
    s.append("_");
    let counter = signed_decimal(name.unique as i128);
    s.append(counter.as_str());
    proof {
        reveal_strlit("_");
    }
    s
}

/// The written form of a version.
pub fn version_string(version: &(usize, usize, usize)) -> (s: String)
    ensures
        s@ == version_text((version.0 as nat, version.1 as nat, version.2 as nat)),
        s@.len() > 0,
{
    let mut s = unsigned_decimal(version.0 as u128);
    s.append(".");
    let minor = unsigned_decimal(version.1 as u128);
    s.append(minor.as_str());
    s.append(".");
    let patch = unsigned_decimal(version.2 as u128);
    s.append(patch.as_str());
    proof {
        lemma_nat_decimal_digits(version.0 as nat);
    }
    s
}

impl Constant {
    /// The document of a literal that is no character literal.
    pub fn to_doc(&self) -> (d: RcDoc<'static, ()>)
        requires
            self@.renderable(),
        ensures
            doc_is_plain(d),
            doc_pieces(d) == constant_pieces(self@),
    {
        proof {
            reveal_strlit("integer");
            reveal_strlit("bytestring");
            reveal_strlit("string");
            reveal_strlit("unit");
            reveal_strlit("bool");
        }
        match self {
            Constant::Integer(i) => {
                let value = i.to_decimal();
                let d = text("integer");
                let d = append(d, space());
                append(d, text(value.as_str()))
            },
            Constant::ByteString(bytes) => {
                let value = encode(bytes);
                let d = text("bytestring");
                let d = append(d, space());
                append(d, text(value.as_str()))
            },
            Constant::String(s) => {
                let d = text("string");
                let d = append(d, space());
                append(d, text(s.as_str()))
            },
            Constant::Char(_) => unreached(),
            Constant::Unit => {
                let d = text("unit");
                let d = append(d, space());
                append(d, text("()"))
            },
            Constant::Bool(b) => {
                let d = text("bool");
                let d = append(d, space());
                append(
                    d,
                    text(
                        if *b {
                            "true"
                        } else {
                            "false"
                        },
                    ),
                )
            },
        }
    }
}

impl Constant {
    /// The document of a literal, or, for a character literal, its
    /// character and no document.
    pub fn try_to_doc(&self) -> (r: Result<RcDoc<'static, ()>, char>)
        ensures
            match r {
                Ok(d) => self@.renderable() && doc_is_plain(d) && doc_pieces(d) == constant_pieces(
                    self@,
                ),
                Err(c) => self@ == ConstantView::Char(c),
            },
    {
        match self.unsupported_char() {
            Some(c) => Err(c),
            None => Ok(self.to_doc()),
        }
    }
}

impl Term {
    /// The document of a term, or, for a term that holds a character
    /// literal at any depth, the character of the first one and no
    /// document.
    pub fn try_to_doc(&self) -> (r: Result<RcDoc<'static, ()>, char>)
        ensures
            match r {
                Ok(d) => self@.renderable() && doc_is_plain(d) && doc_pieces(d) == term_pieces(
                    self@,
                ),
                Err(c) => !self@.renderable() && self@.unsupported_char() == Some(c),
            },
    {
        match self.unsupported_char() {
            Some(c) => Err(c),
            None => Ok(self.to_doc()),
        }
    }

    /// The document of a term that holds no character literal.
    pub fn to_doc(&self) -> (d: RcDoc<'static, ()>)
        requires
            self@.renderable(),
        ensures
            doc_is_plain(d),
            doc_pieces(d) == term_pieces(self@),
        decreases self,
    {
        proof {
            reveal_strlit("(");
            reveal_strlit(")");
            reveal_strlit("[");
            reveal_strlit("]");
            reveal_strlit(" ");
            reveal_strlit("delay");
            reveal_strlit("con");
            reveal_strlit("force");
            reveal_strlit("error");
            reveal_strlit("builtin");
        }
        match self {
            Term::Var(name) => {
                let id = identifier(name);
                text(id.as_str())
            },
            Term::Delay(term) => {
                let d = text("(");
                let d = append(d, line_());
                let d = append(d, text("delay"));
                let d = append(d, line());
                let d = append(d, term.to_doc());
                let d = append(d, line_());
                append(d, text(")"))
            },
            Term::Lambda { parameter_name, body } => {
                let id = identifier(parameter_name);
                let d = text("(");
                let d = append(d, line_());
                let d = append(d, text(id.as_str()));
                let d = append(d, line());
                let d = append(d, body.to_doc());
                let d = append(d, line_());
                append(d, text(")"))
            },
            Term::Apply { function, argument } => {
                let d = text("[");
                let d = append(d, line_());
                let d = append(d, function.to_doc());
                let d = append(d, line());
                let d = append(d, argument.to_doc());
                let d = append(d, line_());
                append(d, text("]"))
            },
            Term::Constant(constant) => {
                let d = text("(");
                let d = append(d, line_());
                let d = append(d, text("con"));
                let d = append(d, text(" "));
                let d = append(d, constant.to_doc());
                let d = append(d, line_());
                append(d, text(")"))
            },
            Term::Force(term) => {
                let d = text("(");
                let d = append(d, line_());
                let d = append(d, text("force"));
                let d = append(d, line());
                let d = append(d, term.to_doc());
                let d = append(d, line_());
                append(d, text(")"))
            },
            Term::Error => {
                let d = text("(");
                let d = append(d, line_());
                let d = append(d, text("error"));
                let d = append(d, line_());
                append(d, text(")"))
            },
            Term::Builtin(builtin) => {
                let d = text("(");
                let d = append(d, line_());
                let d = append(d, text("builtin"));
                let d = append(d, line());
                let d = append(d, text(builtin.name.as_str()));
                let d = append(d, line_());
                append(d, text(")"))
            },
        }
    }
}

impl Program {
    /// The text of a program, or, for a program whose term holds a
    /// character literal at any depth, the character of the first one and
    /// no text at all.
    pub fn try_to_pretty(&self) -> (r: Result<String, char>)
        ensures
            match r {
                Ok(s) => self@.renderable() && s@ == program_text(self@),
                Err(c) => !self@.renderable() && self@.term.unsupported_char() == Some(c),
            },
    {
        match self.unsupported_char() {
            Some(c) => Err(c),
            None => Ok(self.to_pretty()),
        }
    }

    /// The text of a program that holds no character literal: its document,
    /// laid out to a width of twenty columns. The document has no group, so
    /// every break in it is a new line.
    pub fn to_pretty(&self) -> (s: String)
        requires
            self@.renderable(),
        ensures
            s@ == program_text(self@),
    {
        let d = self.to_doc();
        render(&d, WIDTH)
    }

    /// The document of a program that holds no character literal.
    pub fn to_doc(&self) -> (d: RcDoc<'static, ()>)
        requires
            self@.renderable(),
        ensures
            doc_is_plain(d),
            doc_pieces(d) == program_pieces(self@),
    {
        proof {
            reveal_strlit("(");
            reveal_strlit(")");
            reveal_strlit("program");
        }
        let version = version_string(&self.version);
        let d = text("(");
        let d = append(d, text("program"));
        let d = append(d, line());
        let d = append(d, text(version.as_str()));
        let d = append(d, line());
        let d = append(d, self.term.to_doc());
        let d = append(d, line_());
        append(d, text(")"))
    }
}

} // verus!
