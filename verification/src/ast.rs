use crate::integer::Integer;
use vstd::prelude::*;

verus! {

/// An identifier: a label for display and a counter that tells identifiers
/// with the same label apart.
#[derive(Debug)]
pub struct Name {
    pub text: String,
    pub unique: isize,
}

pub struct NameView {
    pub text: Seq<char>,
    pub unique: int,
}

impl View for Name {
    type V = NameView;

    open spec fn view(&self) -> NameView {
        NameView { text: self.text@, unique: self.unique as int }
    }
}

/// A built-in function, known by its canonical name.
#[derive(Debug)]
pub struct BuiltinId {
    pub name: String,
}

impl View for BuiltinId {
    type V = Seq<char>;

    open spec fn view(&self) -> Seq<char> {
        self.name@
    }
}

/// A literal value.
#[derive(Debug)]
pub enum Constant {
    Integer(Integer),
    ByteString(Vec<u8>),
    String(String),
    Char(char),
    Unit,
    Bool(bool),
}

pub enum ConstantView {
    Integer(int),
    ByteString(Seq<u8>),
    String(Seq<char>),
    Char(char),
    Unit,
    Bool(bool),
}

impl View for Constant {
    type V = ConstantView;

    open spec fn view(&self) -> ConstantView {
        match self {
            Constant::Integer(i) => ConstantView::Integer(i@),
            Constant::ByteString(bytes) => ConstantView::ByteString(bytes@),
            Constant::String(s) => ConstantView::String(s@),
            Constant::Char(c) => ConstantView::Char(*c),
            Constant::Unit => ConstantView::Unit,
            Constant::Bool(b) => ConstantView::Bool(*b),
        }
    }
}

/// A term of the calculus. Each term owns its subterms.
#[derive(Debug)]
pub enum Term {
    Var(Name),
    Delay(Box<Term>),
    Lambda { parameter_name: Name, body: Box<Term> },
    Apply { function: Box<Term>, argument: Box<Term> },
    Constant(Constant),
    Force(Box<Term>),
    Error,
    Builtin(BuiltinId),
}

pub enum TermView {
    Var(NameView),
    Delay(Box<TermView>),
    Lambda { parameter_name: NameView, body: Box<TermView> },
    Apply { function: Box<TermView>, argument: Box<TermView> },
    Constant(ConstantView),
    Force(Box<TermView>),
    Error,
    Builtin(Seq<char>),
}

impl View for Term {
    type V = TermView;

    open spec fn view(&self) -> TermView
        decreases self,
    {
        match self {
            Term::Var(name) => TermView::Var(name@),
            Term::Delay(term) => TermView::Delay(Box::new((**term).view())),
            Term::Lambda { parameter_name, body } => TermView::Lambda {
                parameter_name: parameter_name@,
                body: Box::new((**body).view()),
            },
            Term::Apply { function, argument } => TermView::Apply {
                function: Box::new((**function).view()),
                argument: Box::new((**argument).view()),
            },
            Term::Constant(constant) => TermView::Constant(constant@),
            Term::Force(term) => TermView::Force(Box::new((**term).view())),
            Term::Error => TermView::Error,
            Term::Builtin(builtin) => TermView::Builtin(builtin@),
        }
    }
}

/// A program: the version of the language it is written in, and its term.
#[derive(Debug)]
pub struct Program {
    pub version: (usize, usize, usize),
    pub term: Term,
}

pub struct ProgramView {
    pub version: (nat, nat, nat),
    pub term: TermView,
}

impl View for Program {
    type V = ProgramView;

    open spec fn view(&self) -> ProgramView {
        ProgramView {
            version: (self.version.0 as nat, self.version.1 as nat, self.version.2 as nat),
            term: self.term@,
        }
    }
}

impl ConstantView {
    /// Whether the literal has a written form: every literal but a
    /// character literal has one.
    pub open spec fn renderable(self) -> bool {
        self !is Char
    }

    /// The character of a character literal; `None` for every other
    /// literal.
    pub open spec fn unsupported_char(self) -> Option<char> {
        match self {
            ConstantView::Char(c) => Some(c),
            _ => None,
        }
    }
}

impl TermView {
    /// Whether the term can be written: no literal anywhere in it is a
    /// character literal.
    pub open spec fn renderable(self) -> bool
        decreases self,
    {
        match self {
            TermView::Var(_) => true,
            TermView::Delay(term) => term.renderable(),
            TermView::Lambda { parameter_name: _, body } => body.renderable(),
            TermView::Apply { function, argument } => function.renderable()
                && argument.renderable(),
            TermView::Constant(constant) => constant.renderable(),
            TermView::Force(term) => term.renderable(),
            TermView::Error => true,
            TermView::Builtin(_) => true,
        }
    }

    /// The first character literal of the term, reading it from left to
    /// right; `None` where it holds none.
    pub open spec fn unsupported_char(self) -> Option<char>
        decreases self,
    {
        match self {
            TermView::Var(_) => None,
            TermView::Delay(term) => term.unsupported_char(),
            TermView::Lambda { parameter_name: _, body } => body.unsupported_char(),
            TermView::Apply { function, argument } => match function.unsupported_char() {
                Some(c) => Some(c),
                None => argument.unsupported_char(),
            },
            TermView::Constant(constant) => constant.unsupported_char(),
            TermView::Force(term) => term.unsupported_char(),
            TermView::Error => None,
            TermView::Builtin(_) => None,
        }
    }

    /// A term holds a character literal exactly when it cannot be written.
    pub proof fn lemma_unsupported_char(self)
        ensures
            self.unsupported_char() is None <==> self.renderable(),
        decreases self,
    {
        match self {
            TermView::Delay(term) => term.lemma_unsupported_char(),
            TermView::Lambda { parameter_name: _, body } => body.lemma_unsupported_char(),
            TermView::Apply { function, argument } => {
                function.lemma_unsupported_char();
                argument.lemma_unsupported_char();
            },
            TermView::Force(term) => term.lemma_unsupported_char(),
            _ => {},
        }
    }
}

impl ProgramView {
    /// Whether the program can be written: its term can.
    pub open spec fn renderable(self) -> bool {
        self.term.renderable()
    }
}

impl Constant {
    /// The character of a character literal, which has no written form;
    /// `None` for every other literal.
    pub fn unsupported_char(&self) -> (found: Option<char>)
        ensures
            found == self@.unsupported_char(),
            found is None <==> self@.renderable(),
    {
        match self {
            Constant::Char(c) => Some(*c),
            _ => None,
        }
    }
}

impl Term {
    /// The first character literal of the term, reading it from left to
    /// right; `None` exactly where the term can be written.
    pub fn unsupported_char(&self) -> (found: Option<char>)
        ensures
            found == self@.unsupported_char(),
            found is None <==> self@.renderable(),
        decreases self,
    {
        proof {
            self@.lemma_unsupported_char();
        }
        match self {
            Term::Var(_) => None,
            Term::Delay(term) => term.unsupported_char(),
            Term::Lambda { parameter_name: _, body } => body.unsupported_char(),
            Term::Apply { function, argument } => match function.unsupported_char() {
                Some(c) => Some(c),
                None => argument.unsupported_char(),
            },
            Term::Constant(constant) => constant.unsupported_char(),
            Term::Force(term) => term.unsupported_char(),
            Term::Error => None,
            Term::Builtin(_) => None,
        }
    }
}

impl Program {
    /// The first character literal of the program's term, reading it from
    /// left to right; `None` exactly where the program can be written.
    pub fn unsupported_char(&self) -> (found: Option<char>)
        ensures
            found == self@.term.unsupported_char(),
            found is None <==> self@.renderable(),
    {
        self.term.unsupported_char()
    }
}

} // verus!
