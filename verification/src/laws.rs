use crate::ast::{ConstantView, NameView, Program, ProgramView, TermView};
use crate::decimal::{int_decimal, lemma_nat_decimal_digits, nat_decimal};
use crate::doc::{
    broken_text, lemma_broken_text_concat, lemma_broken_text_of_text, lemma_broken_text_one,
    text_pieces, Piece,
};
use crate::hexadecimal::{hex_decode, hex_lower, lemma_hex_round_trip};
use crate::printer::{
    constant_keyword, constant_text, constant_value, name_text, program_text, term_text,
    version_text, word,
};
use vstd::prelude::*;

verus! {

/// The text of a new line.
pub open spec fn newline() -> Seq<char> {
    seq!['\n']
}

/// The layout of a run of fragments splits wherever the run does.
proof fn lemma_layout_splits()
    ensures
        forall|a: Seq<Piece>, b: Seq<Piece>| #[trigger]
            broken_text(a + b) == broken_text(a) + broken_text(b),
        forall|s: Seq<char>| #[trigger] broken_text(word(s)) == s,
        forall|s: Seq<char>| #[trigger] broken_text(text_pieces(s)) == s,
        broken_text(seq![Piece::Line]) == newline(),
        broken_text(seq![Piece::TightLine]) == newline(),
{
    assert forall|a: Seq<Piece>, b: Seq<Piece>| #[trigger]
        broken_text(a + b) == broken_text(a) + broken_text(b) by {
        lemma_broken_text_concat(a, b);
    }
    assert forall|s: Seq<char>| #[trigger] broken_text(word(s)) == s by {
        lemma_broken_text_one(Piece::Text(s));
    }
    assert forall|s: Seq<char>| #[trigger] broken_text(text_pieces(s)) == s by {
        lemma_broken_text_of_text(s);
    }
    lemma_broken_text_one(Piece::Line);
    lemma_broken_text_one(Piece::TightLine);
}

/// The text of a literal is the keyword of its kind, one space, and its
/// value.
pub proof fn law_constant_text(constant: ConstantView)
    requires
        constant.renderable(),
    ensures
        constant_text(constant) == constant_keyword(constant) + " "@ + constant_value(constant),
{
    lemma_layout_splits();
}

/// The kind of a literal that can be written is spelled by one of five
/// keywords. None of them is `char`: no text names a character literal.
pub proof fn law_constant_keyword(constant: ConstantView)
    requires
        constant.renderable(),
    ensures
        constant_keyword(constant) == "integer"@ || constant_keyword(constant) == "bytestring"@
            || constant_keyword(constant) == "string"@ || constant_keyword(constant) == "unit"@
            || constant_keyword(constant) == "bool"@,
        constant_keyword(constant) != "char"@,
{
    reveal_strlit("integer");
    reveal_strlit("bytestring");
    reveal_strlit("string");
    reveal_strlit("unit");
    reveal_strlit("bool");
    reveal_strlit("char");
    assert("unit"@[0] != "char"@[0]);
    assert("bool"@[0] != "char"@[0]);
}

/// The text of a term, by the form of the term: a variable is its
/// identifier; an application is its two parts in square brackets; every
/// other form stands behind its keyword in round brackets. Each bracket and
/// each part is on a line of its own; a literal shares one line with `con`.
pub proof fn law_term_text(term: TermView)
    requires
        term.renderable(),
    ensures
        match term {
            TermView::Var(name) => term_text(term) == name_text(name),
            TermView::Delay(inner) => term_text(term) == "("@ + newline() + "delay"@ + newline()
                + term_text(*inner) + newline() + ")"@,
            TermView::Lambda { parameter_name, body } => term_text(term) == "("@ + newline()
                + name_text(parameter_name) + newline() + term_text(*body) + newline() + ")"@,
            TermView::Apply { function, argument } => term_text(term) == "["@ + newline()
                + term_text(*function) + newline() + term_text(*argument) + newline() + "]"@,
            TermView::Constant(constant) => term_text(term) == "("@ + newline() + "con"@ + " "@
                + constant_text(constant) + newline() + ")"@,
            TermView::Force(inner) => term_text(term) == "("@ + newline() + "force"@ + newline()
                + term_text(*inner) + newline() + ")"@,
            TermView::Error => term_text(term) == "("@ + newline() + "error"@ + newline() + ")"@,
            TermView::Builtin(name) => term_text(term) == "("@ + newline() + "builtin"@
                + newline() + name + newline() + ")"@,
        },
{
    lemma_layout_splits();
}

/// The text of a program: `(program`, the version and the term, each on a
/// line of its own, and the closing bracket on the last line.
pub proof fn law_program_text(program: ProgramView)
    requires
        program.renderable(),
    ensures
        program_text(program) == "("@ + "program"@ + newline() + version_text(program.version)
            + newline() + term_text(program.term) + newline() + ")"@,
{
    lemma_layout_splits();
}

/// Whether a term holds the character literal of `c`: as the term itself,
/// or at any depth under a delay, a force, the body of a lambda or either
/// side of an application.
pub open spec fn holds_char(term: TermView, c: char) -> bool
    decreases term,
{
    match term {
        TermView::Var(_) => false,
        TermView::Delay(inner) => holds_char(*inner, c),
        TermView::Lambda { parameter_name: _, body } => holds_char(*body, c),
        TermView::Apply { function, argument } => holds_char(*function, c) || holds_char(
            *argument,
            c,
        ),
        TermView::Constant(constant) => constant == ConstantView::Char(c),
        TermView::Force(inner) => holds_char(*inner, c),
        TermView::Error => false,
        TermView::Builtin(_) => false,
    }
}

/// A term that holds a character literal, at whatever depth, cannot be
/// written: no function that writes terms can be called on it, and the
/// search for a character literal finds one.
pub proof fn law_char_literal_is_never_written(term: TermView, c: char)
    requires
        holds_char(term, c),
    ensures
        !term.renderable(),
        term.unsupported_char() is Some,
    decreases term,
{
    term.lemma_unsupported_char();
    match term {
        TermView::Delay(inner) => law_char_literal_is_never_written(*inner, c),
        TermView::Lambda { parameter_name: _, body } => law_char_literal_is_never_written(
            *body,
            c,
        ),
        TermView::Apply { function, argument } => {
            if holds_char(*function, c) {
                law_char_literal_is_never_written(*function, c);
            } else {
                law_char_literal_is_never_written(*argument, c);
            }
        },
        TermView::Force(inner) => law_char_literal_is_never_written(*inner, c),
        _ => {},
    }
}

/// A term that cannot be written holds a character literal, and the search
/// for one finds a character that the term holds. So the terms that cannot
/// be written are those with a character literal, and no others.
pub proof fn law_unwritten_term_holds_char(term: TermView)
    requires
        !term.renderable(),
    ensures
        term.unsupported_char() is Some,
        holds_char(term, term.unsupported_char()->0),
    decreases term,
{
    term.lemma_unsupported_char();
    match term {
        TermView::Delay(inner) => law_unwritten_term_holds_char(*inner),
        TermView::Lambda { parameter_name: _, body } => law_unwritten_term_holds_char(*body),
        TermView::Apply { function, argument } => {
            function.lemma_unsupported_char();
            if !function.renderable() {
                law_unwritten_term_holds_char(*function);
            } else {
                law_unwritten_term_holds_char(*argument);
            }
        },
        TermView::Force(inner) => law_unwritten_term_holds_char(*inner),
        _ => {},
    }
}

/// The text of a program is a function of what the program holds: two
/// programs with the same view have the same text, however often and
/// wherever it is asked for.
pub proof fn law_same_program_same_text(first: Program, second: Program)
    requires
        first@.renderable(),
        first@ == second@,
    ensures
        program_text(first@) == program_text(second@),
{
}

/// How often a character occurs in a text.
pub open spec fn occurrences(text: Seq<char>, c: char) -> nat
    decreases text.len(),
{
    if text.len() == 0 {
        0
    } else {
        occurrences(text.drop_last(), c) + if text.last() == c {
            1nat
        } else {
            0nat
        }
    }
}

/// Occurrences in a text made of two parts are those in the first and those
/// in the second.
pub proof fn lemma_occurrences_concat(a: Seq<char>, b: Seq<char>, c: char)
    ensures
        occurrences(a + b, c) == occurrences(a, c) + occurrences(b, c),
    decreases b.len(),
{
    if b.len() == 0 {
        assert(a + b =~= a);
    } else {
        lemma_occurrences_concat(a, b.drop_last(), c);
        assert((a + b).drop_last() =~= a + b.drop_last());
        assert((a + b).last() == b.last());
    }
}

/// A character that is nowhere in a text occurs in it no times.
pub proof fn lemma_occurrences_none(text: Seq<char>, c: char)
    requires
        forall|k: int| 0 <= k < text.len() ==> text[k] != c,
    ensures
        occurrences(text, c) == 0,
    decreases text.len(),
{
    if text.len() > 0 {
        lemma_occurrences_none(text.drop_last(), c);
    }
}

/// Occurrences in a text of one character.
proof fn lemma_occurrences_one(only: char, c: char)
    ensures
        occurrences(seq![only], c) == if only == c {
            1nat
        } else {
            0nat
        },
{
    let text = seq![only];
    assert(text.drop_last() =~= Seq::<char>::empty());
    assert(occurrences(text.drop_last(), c) == 0);
}

proof fn lemma_occurrences_split(c: char)
    ensures
        forall|a: Seq<char>, b: Seq<char>| #[trigger]
            occurrences(a + b, c) == occurrences(a, c) + occurrences(b, c),
{
    assert forall|a: Seq<char>, b: Seq<char>| #[trigger]
        occurrences(a + b, c) == occurrences(a, c) + occurrences(b, c) by {
        lemma_occurrences_concat(a, b, c);
    }
}

/// Whether a character is one of the four brackets.
pub open spec fn is_bracket(c: char) -> bool {
    c == '(' || c == ')' || c == '[' || c == ']'
}

/// Whether a character is one of the two round brackets.
pub open spec fn is_round(c: char) -> bool {
    c == '(' || c == ')'
}

/// One where the condition holds, zero where it does not.
pub open spec fn one_if(condition: bool) -> nat {
    if condition {
        1
    } else {
        0
    }
}

/// How often each bracket occurs in the fixed words of the written form.
proof fn lemma_brackets_in_words(c: char)
    requires
        is_bracket(c),
    ensures
        occurrences("("@, c) == one_if(c == '('),
        occurrences(")"@, c) == one_if(c == ')'),
        occurrences("["@, c) == one_if(c == '['),
        occurrences("]"@, c) == one_if(c == ']'),
        occurrences("()"@, c) == one_if(is_round(c)),
        occurrences(newline(), c) == 0,
        occurrences(" "@, c) == 0,
        occurrences("_"@, c) == 0,
        occurrences("."@, c) == 0,
        occurrences("program"@, c) == 0,
        occurrences("delay"@, c) == 0,
        occurrences("con"@, c) == 0,
        occurrences("force"@, c) == 0,
        occurrences("error"@, c) == 0,
        occurrences("builtin"@, c) == 0,
        occurrences("integer"@, c) == 0,
        occurrences("bytestring"@, c) == 0,
        occurrences("string"@, c) == 0,
        occurrences("unit"@, c) == 0,
        occurrences("bool"@, c) == 0,
        occurrences("true"@, c) == 0,
        occurrences("false"@, c) == 0,
{
    reveal_strlit("(");
    reveal_strlit(")");
    reveal_strlit("[");
    reveal_strlit("]");
    reveal_strlit("()");
    reveal_strlit(" ");
    reveal_strlit("_");
    reveal_strlit(".");
    reveal_strlit("program");
    reveal_strlit("delay");
    reveal_strlit("con");
    reveal_strlit("force");
    reveal_strlit("error");
    reveal_strlit("builtin");
    reveal_strlit("integer");
    reveal_strlit("bytestring");
    reveal_strlit("string");
    reveal_strlit("unit");
    reveal_strlit("bool");
    reveal_strlit("true");
    reveal_strlit("false");
    assert("("@ =~= seq!['(']);
    assert(")"@ =~= seq![')']);
    assert("["@ =~= seq!['[']);
    assert("]"@ =~= seq![']']);
    assert("()"@ =~= seq!['('] + seq![')']);
    lemma_occurrences_one('(', c);
    lemma_occurrences_one(')', c);
    lemma_occurrences_one('[', c);
    lemma_occurrences_one(']', c);
    lemma_occurrences_concat(seq!['('], seq![')'], c);
    lemma_occurrences_none(newline(), c);
    lemma_occurrences_none(" "@, c);
    lemma_occurrences_none("_"@, c);
    lemma_occurrences_none("."@, c);
    lemma_occurrences_none("program"@, c);
    lemma_occurrences_none("delay"@, c);
    lemma_occurrences_none("con"@, c);
    lemma_occurrences_none("force"@, c);
    lemma_occurrences_none("error"@, c);
    lemma_occurrences_none("builtin"@, c);
    lemma_occurrences_none("integer"@, c);
    lemma_occurrences_none("bytestring"@, c);
    lemma_occurrences_none("string"@, c);
    lemma_occurrences_none("unit"@, c);
    lemma_occurrences_none("bool"@, c);
    lemma_occurrences_none("true"@, c);
    lemma_occurrences_none("false"@, c);
}

/// No bracket occurs in a decimal numeral.
proof fn lemma_brackets_in_numeral(i: int, c: char)
    requires
        is_bracket(c),
    ensures
        occurrences(int_decimal(i), c) == 0,
        i >= 0 ==> occurrences(nat_decimal(i as nat), c) == 0,
{
    if i < 0 {
        lemma_nat_decimal_digits((-i) as nat);
        lemma_occurrences_none(nat_decimal((-i) as nat), c);
        lemma_occurrences_one('-', c);
        lemma_occurrences_concat(seq!['-'], nat_decimal((-i) as nat), c);
    } else {
        lemma_nat_decimal_digits(i as nat);
        lemma_occurrences_none(nat_decimal(i as nat), c);
    }
}

/// No bracket occurs in hexadecimal text.
proof fn lemma_brackets_in_hex(bytes: Seq<u8>, c: char)
    requires
        is_bracket(c),
    ensures
        occurrences(hex_lower(bytes), c) == 0,
{
    lemma_occurrences_none(hex_lower(bytes), c);
}

/// The applications in a term.
pub open spec fn apply_nodes(term: TermView) -> nat
    decreases term,
{
    match term {
        TermView::Var(_) => 0,
        TermView::Delay(inner) => apply_nodes(*inner),
        TermView::Lambda { parameter_name: _, body } => apply_nodes(*body),
        TermView::Apply { function, argument } => 1 + apply_nodes(*function) + apply_nodes(
            *argument,
        ),
        TermView::Constant(_) => 0,
        TermView::Force(inner) => apply_nodes(*inner),
        TermView::Error => 0,
        TermView::Builtin(_) => 0,
    }
}

/// The forms in a term that stand in round brackets: each delay, lambda,
/// literal, force, error and builtin.
pub open spec fn round_nodes(term: TermView) -> nat
    decreases term,
{
    match term {
        TermView::Var(_) => 0,
        TermView::Delay(inner) => 1 + round_nodes(*inner),
        TermView::Lambda { parameter_name: _, body } => 1 + round_nodes(*body),
        TermView::Apply { function, argument } => round_nodes(*function) + round_nodes(*argument),
        TermView::Constant(_) => 1,
        TermView::Force(inner) => 1 + round_nodes(*inner),
        TermView::Error => 1,
        TermView::Builtin(_) => 1,
    }
}

/// The unit literals in a term. The value of each is written `()`.
pub open spec fn unit_literals(term: TermView) -> nat
    decreases term,
{
    match term {
        TermView::Var(_) => 0,
        TermView::Delay(inner) => unit_literals(*inner),
        TermView::Lambda { parameter_name: _, body } => unit_literals(*body),
        TermView::Apply { function, argument } => unit_literals(*function) + unit_literals(
            *argument,
        ),
        TermView::Constant(constant) => one_if(constant is Unit),
        TermView::Force(inner) => unit_literals(*inner),
        TermView::Error => 0,
        TermView::Builtin(_) => 0,
    }
}

/// How often a character occurs in the texts that a term takes over as they
/// stand: the labels of its identifiers, its string literals and the names
/// of its builtins.
pub open spec fn occurrences_in_labels(term: TermView, c: char) -> nat
    decreases term,
{
    match term {
        TermView::Var(name) => occurrences(name.text, c),
        TermView::Delay(inner) => occurrences_in_labels(*inner, c),
        TermView::Lambda { parameter_name, body } => occurrences(parameter_name.text, c)
            + occurrences_in_labels(*body, c),
        TermView::Apply { function, argument } => occurrences_in_labels(*function, c)
            + occurrences_in_labels(*argument, c),
        TermView::Constant(constant) => match constant {
            ConstantView::String(s) => occurrences(s, c),
            _ => 0,
        },
        TermView::Force(inner) => occurrences_in_labels(*inner, c),
        TermView::Error => 0,
        TermView::Builtin(name) => occurrences(name, c),
    }
}

/// Whether none of the four brackets occurs in a label, a string literal or
/// a builtin name of the term.
pub open spec fn labels_hold_no_bracket(term: TermView) -> bool {
    &&& occurrences_in_labels(term, '(') == 0
    &&& occurrences_in_labels(term, ')') == 0
    &&& occurrences_in_labels(term, '[') == 0
    &&& occurrences_in_labels(term, ']') == 0
}

/// The brackets that the forms of a term put into its text: a square pair
/// for each application; a round pair for each form in round brackets and
/// for each unit literal.
pub open spec fn brackets_of_forms(term: TermView, c: char) -> nat {
    if is_round(c) {
        round_nodes(term) + unit_literals(term)
    } else {
        apply_nodes(term)
    }
}

/// A label brings its own brackets into an identifier, and the rest of the
/// identifier none.
proof fn lemma_brackets_in_name(name: NameView, c: char)
    requires
        is_bracket(c),
    ensures
        occurrences(name_text(name), c) == occurrences(name.text, c),
{
    lemma_occurrences_split(c);
    lemma_brackets_in_words(c);
    lemma_brackets_in_numeral(name.unique, c);
}

/// The brackets in the text of a literal: those of a string literal's own
/// text, and the pair that writes a unit literal.
proof fn lemma_brackets_in_constant(constant: ConstantView, c: char)
    requires
        is_bracket(c),
        constant.renderable(),
    ensures
        occurrences(constant_text(constant), c) == one_if(constant is Unit && is_round(c)) + (
        match constant {
            ConstantView::String(s) => occurrences(s, c),
            _ => 0,
        }),
{
    law_constant_text(constant);
    lemma_occurrences_split(c);
    lemma_brackets_in_words(c);
    match constant {
        ConstantView::Integer(i) => lemma_brackets_in_numeral(i, c),
        ConstantView::ByteString(bytes) => lemma_brackets_in_hex(bytes, c),
        _ => {},
    }
}

/// In the text of a term each bracket occurs as often as the forms of the
/// term put it there, and as often again as it occurs in the labels, string
/// literals and builtin names that the term holds.
pub proof fn law_term_brackets(term: TermView, c: char)
    requires
        term.renderable(),
        is_bracket(c),
    ensures
        occurrences(term_text(term), c) == brackets_of_forms(term, c) + occurrences_in_labels(
            term,
            c,
        ),
    decreases term,
{
    law_term_text(term);
    lemma_occurrences_split(c);
    lemma_brackets_in_words(c);
    match term {
        TermView::Var(name) => {
            lemma_brackets_in_name(name, c);
        },
        TermView::Delay(inner) => {
            law_term_brackets(*inner, c);
        },
        TermView::Lambda { parameter_name, body } => {
            lemma_brackets_in_name(parameter_name, c);
            law_term_brackets(*body, c);
        },
        TermView::Apply { function, argument } => {
            law_term_brackets(*function, c);
            law_term_brackets(*argument, c);
        },
        TermView::Constant(constant) => {
            lemma_brackets_in_constant(constant, c);
        },
        TermView::Force(inner) => {
            law_term_brackets(*inner, c);
        },
        TermView::Error => {},
        TermView::Builtin(_) => {},
    }
}

/// In the text of a program each bracket occurs as often as in the text of
/// its term, and each round bracket once more, for the program itself.
pub proof fn law_program_brackets(program: ProgramView, c: char)
    requires
        program.renderable(),
        is_bracket(c),
    ensures
        occurrences(program_text(program), c) == one_if(is_round(c)) + brackets_of_forms(
            program.term,
            c,
        ) + occurrences_in_labels(program.term, c),
{
    law_program_text(program);
    law_term_brackets(program.term, c);
    lemma_occurrences_split(c);
    lemma_brackets_in_words(c);
    lemma_brackets_in_numeral(program.version.0 as int, c);
    lemma_brackets_in_numeral(program.version.1 as int, c);
    lemma_brackets_in_numeral(program.version.2 as int, c);
}

/// Where no label, string literal or builtin name of a program holds a
/// bracket, the text has one pair of square brackets for each application,
/// and one pair of round brackets for each delay, lambda, literal, force,
/// error and builtin, for each unit literal, and for the program.
pub proof fn law_brackets_match_nodes(program: ProgramView)
    requires
        program.renderable(),
        labels_hold_no_bracket(program.term),
    ensures
        occurrences(program_text(program), '[') == apply_nodes(program.term),
        occurrences(program_text(program), ']') == apply_nodes(program.term),
        occurrences(program_text(program), '(') == round_nodes(program.term) + unit_literals(
            program.term,
        ) + 1,
        occurrences(program_text(program), ')') == round_nodes(program.term) + unit_literals(
            program.term,
        ) + 1,
{
    law_program_brackets(program, '[');
    law_program_brackets(program, ']');
    law_program_brackets(program, '(');
    law_program_brackets(program, ')');
}

/// Whether a text holds another as an unbroken part of it.
pub open spec fn occurs_in(part: Seq<char>, text: Seq<char>) -> bool {
    exists|before: Seq<char>, after: Seq<char>| text == #[trigger] (before + part + after)
}

/// A text holds itself.
pub proof fn lemma_occurs_in_itself(part: Seq<char>)
    ensures
        occurs_in(part, part),
{
    let none = Seq::<char>::empty();
    assert(part =~= none + part + none);
}

/// What the first of two parts holds, the whole holds.
pub proof fn lemma_occurs_in_first(part: Seq<char>, first: Seq<char>, second: Seq<char>)
    requires
        occurs_in(part, first),
    ensures
        occurs_in(part, first + second),
{
    let (before, after) = choose|before: Seq<char>, after: Seq<char>|
        first == #[trigger] (before + part + after);
    assert(first + second =~= before + part + (after + second));
}

/// What the second of two parts holds, the whole holds.
pub proof fn lemma_occurs_in_second(part: Seq<char>, first: Seq<char>, second: Seq<char>)
    requires
        occurs_in(part, second),
    ensures
        occurs_in(part, first + second),
{
    let (before, after) = choose|before: Seq<char>, after: Seq<char>|
        second == #[trigger] (before + part + after);
    assert(first + second =~= (first + before) + part + after);
}

/// Whether a term holds an identifier, as a variable or as the parameter of
/// a lambda.
pub open spec fn holds_name(term: TermView, name: NameView) -> bool
    decreases term,
{
    match term {
        TermView::Var(own) => own == name,
        TermView::Delay(inner) => holds_name(*inner, name),
        TermView::Lambda { parameter_name, body } => parameter_name == name || holds_name(
            *body,
            name,
        ),
        TermView::Apply { function, argument } => holds_name(*function, name) || holds_name(
            *argument,
            name,
        ),
        TermView::Constant(_) => false,
        TermView::Force(inner) => holds_name(*inner, name),
        TermView::Error => false,
        TermView::Builtin(_) => false,
    }
}

/// What stands fourth or fifth among the seven parts of a bracketed form
/// stands in the form.
proof fn lemma_occurs_in_form(
    part: Seq<char>,
    a: Seq<char>,
    b: Seq<char>,
    c: Seq<char>,
    d: Seq<char>,
    e: Seq<char>,
    f: Seq<char>,
    g: Seq<char>,
)
    requires
        occurs_in(part, c) || occurs_in(part, e),
    ensures
        occurs_in(part, a + b + c + d + e + f + g),
{
    if occurs_in(part, c) {
        lemma_occurs_in_second(part, a + b, c);
        lemma_occurs_in_first(part, a + b + c, d);
        lemma_occurs_in_first(part, a + b + c + d, e);
    } else {
        lemma_occurs_in_second(part, a + b + c + d, e);
    }
    lemma_occurs_in_first(part, a + b + c + d + e, f);
    lemma_occurs_in_first(part, a + b + c + d + e + f, g);
}

/// The text of a term holds each identifier of the term as it is written:
/// the label, an underscore and the counter in decimal, with nothing
/// between them.
pub proof fn law_term_names(term: TermView, name: NameView)
    requires
        term.renderable(),
        holds_name(term, name),
    ensures
        occurs_in(name.text + "_"@ + int_decimal(name.unique), term_text(term)),
    decreases term,
{
    law_term_text(term);
    let id = name_text(name);
    let nl = newline();
    match term {
        TermView::Var(_) => {
            lemma_occurs_in_itself(id);
        },
        TermView::Delay(inner) => {
            law_term_names(*inner, name);
            lemma_occurs_in_form(id, "("@, nl, "delay"@, nl, term_text(*inner), nl, ")"@);
        },
        TermView::Lambda { parameter_name, body } => {
            if parameter_name == name {
                lemma_occurs_in_itself(id);
            } else {
                law_term_names(*body, name);
            }
            lemma_occurs_in_form(id, "("@, nl, name_text(parameter_name), nl, term_text(*body), nl, ")"@);
        },
        TermView::Apply { function, argument } => {
            if holds_name(*function, name) {
                law_term_names(*function, name);
            } else {
                law_term_names(*argument, name);
            }
            lemma_occurs_in_form(
                id,
                "["@,
                nl,
                term_text(*function),
                nl,
                term_text(*argument),
                nl,
                "]"@,
            );
        },
        TermView::Force(inner) => {
            law_term_names(*inner, name);
            lemma_occurs_in_form(id, "("@, nl, "force"@, nl, term_text(*inner), nl, ")"@);
        },
        _ => {},
    }
}

/// The text of a program holds each identifier of its term as it is
/// written: the label, an underscore and the counter in decimal, with
/// nothing between them.
pub proof fn law_program_names(program: ProgramView, name: NameView)
    requires
        program.renderable(),
        holds_name(program.term, name),
    ensures
        occurs_in(name.text + "_"@ + int_decimal(name.unique), program_text(program)),
{
    law_program_text(program);
    law_term_names(program.term, name);
    let lead = "("@ + "program"@ + newline() + version_text(program.version) + newline();
    let id = name_text(name);
    lemma_occurs_in_second(id, lead, term_text(program.term));
    lemma_occurs_in_first(id, lead + term_text(program.term), newline());
    lemma_occurs_in_first(id, lead + term_text(program.term) + newline(), ")"@);
}

/// The text of a byte string literal is its keyword, a space and the bytes
/// in hexadecimal; the hexadecimal text is twice as long as the bytes and
/// decodes back to them.
pub proof fn law_bytestring_text(bytes: Seq<u8>)
    ensures
        constant_text(ConstantView::ByteString(bytes)) == "bytestring"@ + " "@ + hex_lower(bytes),
        hex_lower(bytes).len() == 2 * bytes.len(),
        hex_decode(hex_lower(bytes)) == Some(bytes),
{
    law_constant_text(ConstantView::ByteString(bytes));
    lemma_hex_round_trip(bytes);
}

} // verus!
