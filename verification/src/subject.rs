//! How diagnostics name an expression: its name, its literal text, its
//! operator, or a short description of its kind.
use vstd::prelude::*;

use crate::const_eval::{symbol_string, symbol_text};
use crate::expr::{BinaryOp, ExprForm, ExprId, ExprKind, ExprStore, LitKind, PrefixOp};
use crate::text::string_of_chars;

verus! {

/// The text of a prefix operator.
pub open spec fn prefix_op_text(op: PrefixOp) -> Seq<char> {
    match op {
        PrefixOp::Neg => "-"@,
        PrefixOp::Not => "not"@,
        PrefixOp::Mut => "mut"@,
        PrefixOp::Known => "known"@,
    }
}

/// How a diagnostic names a prefix operator.
pub fn prefix_op_subject(op: PrefixOp) -> (s: &'static str)
    ensures
        s@ == prefix_op_text(op),
{
    match op {
        PrefixOp::Neg => "-",
        PrefixOp::Not => "not",
        PrefixOp::Mut => "mut",
        PrefixOp::Known => "known",
    }
}

/// The text of a range operator with the given inclusive ends.
pub open spec fn range_op_text(include_lower: bool, include_upper: bool) -> Seq<char> {
    match (include_lower, include_upper) {
        (true, true) => ".."@,
        (true, false) => "..<"@,
        (false, true) => "<.."@,
        (false, false) => "<..<"@,
    }
}

/// How a diagnostic names a range operator: `..`, `..<`, `<..` or `<..<`,
/// with `<` on each side whose end is excluded.
pub fn range_op_subject(include_lower: bool, include_upper: bool) -> (s: &'static str)
    ensures
        s@ == range_op_text(include_lower, include_upper),
{
    match (include_lower, include_upper) {
        (true, true) => "..",
        (true, false) => "..<",
        (false, true) => "<..",
        (false, false) => "<..<",
    }
}

/// The text of a binary operator that is spelled the same everywhere;
/// `operator` for `in`, ranges and user operators.
pub open spec fn fixed_binary_op_text(op: BinaryOp) -> Seq<char> {
    match op {
        BinaryOp::Assign => "="@,
        BinaryOp::Arrow => "->"@,
        BinaryOp::TypeEq => "=="@,
        BinaryOp::Eq => "=="@,
        BinaryOp::Or => "or"@,
        BinaryOp::Xor => "xor"@,
        BinaryOp::And => "and"@,
        BinaryOp::Ne => "!="@,
        BinaryOp::Lt => "<"@,
        BinaryOp::Gt => ">"@,
        BinaryOp::Le => "<="@,
        BinaryOp::Ge => ">="@,
        BinaryOp::Shl => "<<"@,
        BinaryOp::Shr => ">>"@,
        BinaryOp::Add => "+"@,
        BinaryOp::Sub => "-"@,
        BinaryOp::Mul => "*"@,
        BinaryOp::Div => "/"@,
        BinaryOp::Rem => "%"@,
        BinaryOp::In => "operator"@,
        BinaryOp::Range { .. } => "operator"@,
        BinaryOp::UserOp(_) => "operator"@,
    }
}

/// How a diagnostic names a binary operator, ignoring ranges, `in` and user
/// operators.
pub fn fixed_binary_op_subject(op: BinaryOp) -> (s: &'static str)
    ensures
        s@ == fixed_binary_op_text(op),
{
    match op {
        BinaryOp::Assign => "=",
        BinaryOp::Arrow => "->",
        BinaryOp::TypeEq => "==",
        BinaryOp::Eq => "==",
        BinaryOp::Or => "or",
        BinaryOp::Xor => "xor",
        BinaryOp::And => "and",
        BinaryOp::Ne => "!=",
        BinaryOp::Lt => "<",
        BinaryOp::Gt => ">",
        BinaryOp::Le => "<=",
        BinaryOp::Ge => ">=",
        BinaryOp::Shl => "<<",
        BinaryOp::Shr => ">>",
        BinaryOp::Add => "+",
        BinaryOp::Sub => "-",
        BinaryOp::Mul => "*",
        BinaryOp::Div => "/",
        BinaryOp::Rem => "%",
        BinaryOp::In => "operator",
        BinaryOp::Range { .. } => "operator",
        BinaryOp::UserOp(_) => "operator",
    }
}

/// How a diagnostic names a binary operator: a range by its ends, `in`, a
/// user operator by its symbol, and the rest by their fixed text.
pub open spec fn binary_op_text(names: Seq<Seq<char>>, op: BinaryOp) -> Seq<char> {
    match op {
        BinaryOp::Range { include_lower, include_upper } => range_op_text(include_lower, include_upper),
        BinaryOp::In => "in"@,
        BinaryOp::UserOp(s) => symbol_text(names, s),
        _ => fixed_binary_op_text(op),
    }
}

/// How a diagnostic names a binary operator.
pub fn binary_op_subject(names: &Vec<String>, op: BinaryOp) -> (s: String)
    ensures
        s@ == binary_op_text(names@.map_values(|t: String| t@), op),
{
    match op {
        BinaryOp::Range { include_lower, include_upper } => range_op_subject(
            include_lower,
            include_upper,
        ).to_owned(),
        BinaryOp::In => "in".to_owned(),
        BinaryOp::UserOp(s) => symbol_string(names, s),
        _ => fixed_binary_op_subject(op).to_owned(),
    }
}

/// The description of an expression that has no name, literal or operator to
/// show.
pub open spec fn kind_text(k: ExprKind) -> Seq<char> {
    match k {
        ExprKind::Sequence { .. } => "sequence expression"@,
        ExprKind::Tuple { .. } => "tuple expression"@,
        ExprKind::Let { .. } => "let expression"@,
        ExprKind::Other { form, .. } => form_text(form),
        _ => "expression"@,
    }
}

/// The description of an expression of the given form.
pub open spec fn form_text(form: ExprForm) -> Seq<char> {
    match form {
        ExprForm::Template => "template literal"@,
        ExprForm::Array => "array expression"@,
        ExprForm::ArrayTy => "array type expression"@,
        ExprForm::Record => "record expression"@,
        ExprForm::Pi => "callable type expression"@,
        ExprForm::Lambda => "lambda expression"@,
        ExprForm::Call => "call expression"@,
        ExprForm::Apply => "type application"@,
        ExprForm::Index => "index expression"@,
        ExprForm::RecordUpdate => "record update"@,
        ExprForm::TypeTest => "type test"@,
        ExprForm::TypeCast => "type cast"@,
        ExprForm::PartialRange => "partial range"@,
        ExprForm::Import => "import expression"@,
        ExprForm::Yield => "yield expression"@,
        ExprForm::Defer => "defer expression"@,
        ExprForm::Match => "match expression"@,
        ExprForm::If => "if expression"@,
        ExprForm::Data => "data declaration"@,
        ExprForm::Effect => "expression"@,
        ExprForm::Shape => "shape declaration"@,
        ExprForm::Unsafe => "unsafe expression"@,
        ExprForm::Pin => "pin expression"@,
        ExprForm::Unlisted => "expression"@,
    }
}

fn form_subject(form: ExprForm) -> (s: &'static str)
    ensures
        s@ == form_text(form),
{
    match form {
        ExprForm::Template => "template literal",
        ExprForm::Array => "array expression",
        ExprForm::ArrayTy => "array type expression",
        ExprForm::Record => "record expression",
        ExprForm::Pi => "callable type expression",
        ExprForm::Lambda => "lambda expression",
        ExprForm::Call => "call expression",
        ExprForm::Apply => "type application",
        ExprForm::Index => "index expression",
        ExprForm::RecordUpdate => "record update",
        ExprForm::TypeTest => "type test",
        ExprForm::TypeCast => "type cast",
        ExprForm::PartialRange => "partial range",
        ExprForm::Import => "import expression",
        ExprForm::Yield => "yield expression",
        ExprForm::Defer => "defer expression",
        ExprForm::Match => "match expression",
        ExprForm::If => "if expression",
        ExprForm::Data => "data declaration",
        ExprForm::Effect => "expression",
        ExprForm::Shape => "shape declaration",
        ExprForm::Unsafe => "unsafe expression",
        ExprForm::Pin => "pin expression",
        ExprForm::Unlisted => "expression",
    }
}

/// The upper-case hexadecimal digit `d`, for `d < 16`.
pub open spec fn hex_digit(d: u32) -> char {
    if d == 0 { '0' } else if d == 1 { '1' } else if d == 2 { '2' } else if d == 3 { '3' }
    else if d == 4 { '4' } else if d == 5 { '5' } else if d == 6 { '6' } else if d == 7 { '7' }
    else if d == 8 { '8' } else if d == 9 { '9' } else if d == 10 { 'A' } else if d == 11 { 'B' }
    else if d == 12 { 'C' } else if d == 13 { 'D' } else if d == 14 { 'E' } else { 'F' }
}

/// The upper-case hexadecimal digits of `v`, most significant first, with no
/// leading zero.
pub open spec fn hex_digits(v: u32) -> Seq<char>
    decreases v,
{
    if v < 16 {
        seq![hex_digit(v)]
    } else {
        hex_digits(v / 16).push(hex_digit(v % 16))
    }
}

/// `s` with zeros in front, to at least `width` characters.
pub open spec fn zero_padded(s: Seq<char>, width: nat) -> Seq<char> {
    if s.len() >= width {
        s
    } else {
        Seq::new((width - s.len()) as nat, |_i: int| '0') + s
    }
}

/// How a diagnostic names a rune: `U+` and its code in upper-case
/// hexadecimal, at least four digits.
pub open spec fn rune_text(v: u32) -> Seq<char> {
    seq!['U', '+'] + zero_padded(hex_digits(v), 4)
}

fn hex_digit_exec(d: u32) -> (c: char)
    requires
        d < 16,
    ensures
        c == hex_digit(d),
{
    if d == 0 { '0' } else if d == 1 { '1' } else if d == 2 { '2' } else if d == 3 { '3' }
    else if d == 4 { '4' } else if d == 5 { '5' } else if d == 6 { '6' } else if d == 7 { '7' }
    else if d == 8 { '8' } else if d == 9 { '9' } else if d == 10 { 'A' } else if d == 11 { 'B' }
    else if d == 12 { 'C' } else if d == 13 { 'D' } else if d == 14 { 'E' } else { 'F' }
}

fn push_hex_digits(out: &mut Vec<char>, v: u32)
    ensures
        final(out)@ == old(out)@ + hex_digits(v),
    decreases v,
{
    if v < 16 {
        out.push(hex_digit_exec(v));
        assert(final(out)@ =~= old(out)@ + hex_digits(v));
    } else {
        push_hex_digits(out, v / 16);
        out.push(hex_digit_exec(v % 16));
        assert(final(out)@ =~= old(out)@ + hex_digits(v));
    }
}

/// How a diagnostic names a rune literal.
pub fn rune_subject(v: u32) -> (s: String)
    ensures
        s@ == rune_text(v),
{
    let mut digits: Vec<char> = Vec::new();
    push_hex_digits(&mut digits, v);
    assert(digits@ =~= hex_digits(v));
    let mut out: Vec<char> = Vec::new();
    out.push('U');
    out.push('+');
    let pad: usize = if digits.len() < 4 {
        4 - digits.len()
    } else {
        0
    };
    let mut k: usize = 0;
    while k < pad
        invariant
            k <= pad,
            out@ == seq!['U', '+'] + Seq::new(k as nat, |_i: int| '0'),
        decreases pad - k,
    {
        out.push('0');
        assert(out@ =~= seq!['U', '+'] + Seq::new((k + 1) as nat, |_i: int| '0'));
        k = k + 1;
    }
    let mut i: usize = 0;
    let ghost prefix = out@;
    while i < digits.len()
        invariant
            i <= digits.len(),
            out@ == prefix + digits@.subrange(0, i as int),
        decreases digits.len() - i,
    {
        out.push(digits[i]);
        assert(out@ =~= prefix + digits@.subrange(0, i + 1));
        i = i + 1;
    }
    assert(out@ =~= rune_text(v));
    string_of_chars(&out)
}

/// How a diagnostic names a literal: a number by its text, a string in double
/// quotes, a rune by its code.
pub open spec fn lit_text(lit: LitKind) -> Seq<char> {
    match lit {
        LitKind::Int { raw, .. } => raw@,
        LitKind::Float { raw } => raw@,
        LitKind::String { value } => seq!['"'] + value@ + seq!['"'],
        LitKind::Rune { value } => rune_text(value),
    }
}

/// How a diagnostic names a literal.
pub fn lit_subject(lit: &LitKind) -> (s: String)
    ensures
        s@ == lit_text(*lit),
{
    match lit {
        LitKind::Int { raw, .. } => raw.clone(),
        LitKind::Float { raw } => raw.clone(),
        LitKind::String { value } => {
            let mut out: Vec<char> = Vec::new();
            out.push('"');
            let chars = crate::text::chars_of(value.as_str());
            let mut i: usize = 0;
            while i < chars.len()
                invariant
                    i <= chars.len(),
                    out@ == seq!['"'] + chars@.subrange(0, i as int),
                decreases chars.len() - i,
            {
                out.push(chars[i]);
                assert(out@ =~= seq!['"'] + chars@.subrange(0, i + 1));
                i = i + 1;
            }
            out.push('"');
            assert(out@ =~= seq!['"'] + value@ + seq!['"']);
            string_of_chars(&out)
        },
        LitKind::Rune { value } => rune_subject(*value),
    }
}

/// How a diagnostic names an expression: a name or field by its name, a
/// literal by its text, a variant by its tag, an operator by its text, and
/// any other expression by a description of its kind.
pub open spec fn expr_subject_text(names: Seq<Seq<char>>, k: ExprKind) -> Seq<char> {
    match k {
        ExprKind::Error => "error"@,
        ExprKind::Name { name, .. } => symbol_text(names, name),
        ExprKind::Field { name, .. } => symbol_text(names, name),
        ExprKind::Lit { lit } => lit_text(lit),
        ExprKind::Variant { tag, .. } => symbol_text(names, tag),
        ExprKind::Prefix { op, .. } => prefix_op_text(op),
        ExprKind::Binary { op, .. } => binary_op_text(names, op),
        _ => kind_text(k),
    }
}

/// How a diagnostic names expression `id`.
pub fn expr_subject(exprs: &ExprStore, names: &Vec<String>, id: ExprId) -> (s: String)
    requires
        id.0 < exprs.kinds().len(),
    ensures
        s@ == expr_subject_text(names@.map_values(|t: String| t@), exprs.kinds()[id.0 as int]),
{
    match exprs.kind(id) {
        ExprKind::Error => "error".to_owned(),
        ExprKind::Name { name, .. } => symbol_string(names, *name),
        ExprKind::Field { name, .. } => symbol_string(names, *name),
        ExprKind::Lit { lit } => lit_subject(lit),
        ExprKind::Variant { tag, .. } => symbol_string(names, *tag),
        ExprKind::Prefix { op, .. } => prefix_op_subject(*op).to_owned(),
        ExprKind::Binary { op, .. } => binary_op_subject(names, *op),
        ExprKind::Sequence { .. } => "sequence expression".to_owned(),
        ExprKind::Tuple { .. } => "tuple expression".to_owned(),
        ExprKind::Let { .. } => "let expression".to_owned(),
        ExprKind::Other { form, .. } => form_subject(*form).to_owned(),
    }
}

} // verus!
