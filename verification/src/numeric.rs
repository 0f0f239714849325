//! Reading numeric and other literals, and constant arithmetic expressions over them,
//! out of predicate text.
use vstd::prelude::*;

use crate::decimal::{
    decimal_of, decimal_quotient, is_digit, number_difference, number_literal, number_negation, number_product,
    number_sum, parse_repair_number_literal, rational_addition, rational_negation, rational_of_number,
    rational_product, rational_quotient, rational_subtraction, RepairNumber, RepairRational,
};
use crate::clauses::{compact, compact_predicate_text};
use crate::predicate_text::{
    operand_path, operand_path_view,
    lemma_strip_parens_len, lemma_trim_len, strip_balanced_outer_parens, strip_parens, string_from, trim, trimmed,
};
use crate::text::{chars_of, has_prefix, push_char, starts_with, str_eq};

verus! {

/// Whether `op` between `left` and what follows is a binary operator: any operator but
/// `-`, and `-` only after a digit, `)` or `"`.
pub open spec fn binary_operator(left: Seq<char>, op: char) -> bool {
    op != '-' || (left.len() > 0 && (is_digit(left.last()) || left.last() == ')' || left.last() == '"'))
}

/// Whether `operator` after `left` is a binary operator rather than a sign.
pub fn operator_is_binary(left: &str, operator: char) -> (r: bool)
    ensures
        r == binary_operator(left@, operator),
{
    if operator != '-' {
        return true;
    }
    let v = chars_of(left);
    if v.len() == 0 {
        return false;
    }
    let last = v[v.len() - 1];
    ('0' <= last && last <= '9') || last == ')' || last == '"'
}

/// The split of `s` at the last top-level binary occurrence of `op` among its first `i`
/// characters, read from the end: the trimmed text before and after it, both non-empty.
pub open spec fn rsplit_scan(s: Seq<char>, op: char, i: int, depth: nat, in_string: bool, escaped: bool) -> Option<(Seq<char>, Seq<char>)>
    decreases i,
{
    if i <= 0 || i > s.len() {
        None
    } else {
        let k = i - 1;
        let ch = s[k];
        if in_string {
            if escaped {
                rsplit_scan(s, op, k, depth, true, false)
            } else if ch == '\\' {
                rsplit_scan(s, op, k, depth, true, true)
            } else if ch == '"' {
                rsplit_scan(s, op, k, depth, false, false)
            } else {
                rsplit_scan(s, op, k, depth, true, false)
            }
        } else if ch == '"' {
            rsplit_scan(s, op, k, depth, true, false)
        } else if ch == ')' {
            rsplit_scan(s, op, k, depth + 1, false, false)
        } else if ch == '(' {
            rsplit_scan(s, op, k, if depth == 0 { 0 } else { (depth - 1) as nat }, false, false)
        } else if depth == 0 && ch == op && trim(s.take(k)).len() > 0 && trim(s.skip(k + 1)).len() > 0
            && binary_operator(trim(s.take(k)), op) {
            Some((trim(s.take(k)), trim(s.skip(k + 1))))
        } else {
            rsplit_scan(s, op, k, depth, false, false)
        }
    }
}

/// The split of `s` at its last top-level binary occurrence of `op`.
pub open spec fn numeric_split(s: Seq<char>, op: char) -> Option<(Seq<char>, Seq<char>)> {
    rsplit_scan(s, op, s.len() as int, 0, false, false)
}

proof fn lemma_rsplit_shorter(s: Seq<char>, op: char, i: int, depth: nat, in_string: bool, escaped: bool)
    ensures
        rsplit_scan(s, op, i, depth, in_string, escaped) matches Some((l, r)) ==> l.len() < s.len() && r.len() < s.len(),
    decreases i,
{
    if 0 < i <= s.len() {
        let k = i - 1;
        lemma_trim_len(s.take(k));
        lemma_trim_len(s.skip(k + 1));
        let ch = s[k];
        if in_string {
            if escaped {
                lemma_rsplit_shorter(s, op, k, depth, true, false);
            } else if ch == '\\' {
                lemma_rsplit_shorter(s, op, k, depth, true, true);
            } else if ch == '"' {
                lemma_rsplit_shorter(s, op, k, depth, false, false);
            } else {
                lemma_rsplit_shorter(s, op, k, depth, true, false);
            }
        } else if ch == '"' {
            lemma_rsplit_shorter(s, op, k, depth, true, false);
        } else if ch == ')' {
            lemma_rsplit_shorter(s, op, k, depth + 1, false, false);
        } else if ch == '(' {
            lemma_rsplit_shorter(s, op, k, if depth == 0 { 0 } else { (depth - 1) as nat }, false, false);
        } else {
            lemma_rsplit_shorter(s, op, k, depth, false, false);
        }
    }
}

/// Each side of a numeric split is shorter than the text split.
pub proof fn lemma_numeric_split_shorter(s: Seq<char>, op: char)
    ensures
        numeric_split(s, op) matches Some((l, r)) ==> l.len() < s.len() && r.len() < s.len(),
{
    lemma_rsplit_shorter(s, op, s.len() as int, 0, false, false);
}

/// The split of `predicate` at its last top-level binary occurrence of `operator`
/// (outside parentheses and string literals): the trimmed text before and after it,
/// both non-empty.
pub fn split_repair_numeric_operator(predicate: &str, operator: char) -> (r: Option<(String, String)>)
    ensures
        match r {
            Some((l, rt)) => numeric_split(predicate@, operator) == Some((l@, rt@)),
            None => numeric_split(predicate@, operator) is None,
        },
{
    let v = chars_of(predicate);
    let mut i: usize = v.len();
    let mut depth: usize = 0;
    let mut in_string = false;
    let mut escaped = false;
    while i > 0
        invariant
            0 <= i <= v@.len(),
            v@ == predicate@,
            depth <= v@.len() - i,
            !in_string ==> !escaped,
            numeric_split(predicate@, operator) == rsplit_scan(v@, operator, i as int, depth as nat, in_string, escaped),
        decreases i,
    {
        let k = i - 1;
        let ch = v[k];
        if in_string {
            if escaped {
                escaped = false;
            } else if ch == '\\' {
                escaped = true;
            } else if ch == '"' {
                in_string = false;
            }
            i = k;
            continue;
        }
        if ch == '"' {
            in_string = true;
        } else if ch == ')' {
            depth += 1;
        } else if ch == '(' {
            depth = if depth == 0 { 0 } else { depth - 1 };
        } else if depth == 0 && ch == operator {
            let before = string_from(&v, 0, k);
            let after = string_from(&v, k + 1, v.len());
            assert(v@.subrange(0, k as int) =~= v@.take(k as int));
            assert(v@.subrange(k + 1, v@.len() as int) =~= v@.skip(k + 1));
            let left = trimmed(before.as_str());
            let right = trimmed(after.as_str());
            if left.unicode_len() > 0 && right.unicode_len() > 0 && operator_is_binary(left.as_str(), operator) {
                return Some((left, right));
            }
        }
        i = k;
    }
    None
}

/// An operation on two numbers, by its operator: `+`, `-`, `*` or `/`.
pub open spec fn number_operation(op: char, a: RepairNumber, b: RepairNumber) -> Option<RepairNumber> {
    if op == '+' {
        number_sum(a, b)
    } else if op == '-' {
        number_difference(a, b)
    } else if op == '*' {
        number_product(a, b)
    } else {
        decimal_quotient(a, b)
    }
}

/// The value of a constant arithmetic expression over decimal literals: without
/// wrapping parentheses, a literal, else split at the last top-level `+`, then `-`,
/// then `*`, then `/`, else a leading `-`; each operation exact, `None` where a value
/// does not fit or a division has no finite decimal result.
pub open spec fn numeric_expression(p: Seq<char>) -> Option<RepairNumber>
    decreases p.len(),
{
    let t = strip_parens(trim(p));
    proof {
        lemma_trim_len(p);
        lemma_strip_parens_len(trim(p));
        lemma_numeric_split_shorter(t, '+');
        lemma_numeric_split_shorter(t, '-');
        lemma_numeric_split_shorter(t, '*');
        lemma_numeric_split_shorter(t, '/');
    }
    if t.len() == 0 {
        None
    } else if number_literal(t) is Some {
        Some(decimal_of(number_literal(t)->0))
    } else if numeric_split(t, '+') is Some || numeric_split(t, '-') is Some || numeric_split(t, '*') is Some
        || numeric_split(t, '/') is Some {
        let op = if numeric_split(t, '+') is Some {
            '+'
        } else if numeric_split(t, '-') is Some {
            '-'
        } else if numeric_split(t, '*') is Some {
            '*'
        } else {
            '/'
        };
        let (l, r) = numeric_split(t, op)->0;
        match (numeric_expression(l), numeric_expression(r)) {
            (Some(a), Some(b)) => number_operation(op, a, b),
            _ => None,
        }
    } else if has_prefix(t, seq!['-']) {
        match numeric_expression(t.skip(1)) {
            Some(x) => number_negation(x),
            None => None,
        }
    } else {
        None
    }
}

/// The value of a constant arithmetic expression over decimal literals, when every
/// step is exact and fits.
pub fn repair_numeric_expression(predicate: &str) -> (r: Option<RepairNumber>)
    ensures
        r == numeric_expression(predicate@),
    decreases predicate@.len(),
{
    let t0 = trimmed(predicate);
    let t = strip_balanced_outer_parens(t0.as_str());
    proof {
        lemma_trim_len(predicate@);
        lemma_strip_parens_len(trim(predicate@));
        lemma_numeric_split_shorter(t@, '+');
        lemma_numeric_split_shorter(t@, '-');
        lemma_numeric_split_shorter(t@, '*');
        lemma_numeric_split_shorter(t@, '/');
    }
    if t.unicode_len() == 0 {
        return None;
    }
    match parse_repair_number_literal(t.as_str()) {
        Some(n) => return Some(n),
        None => {},
    }
    let ops: [char; 4] = ['+', '-', '*', '/'];
    let mut i: usize = 0;
    while i < 4
        invariant
            0 <= i <= 4,
            ops@ == seq!['+', '-', '*', '/'],
            forall|k: int| 0 <= k < i ==> numeric_split(t@, #[trigger] ops@[k]) is None,
        decreases 4 - i,
    {
        let op = ops[i];
        match split_repair_numeric_operator(t.as_str(), op) {
            Some((l, r)) => {
                let left = match repair_numeric_expression(l.as_str()) {
                    Some(x) => x,
                    None => return None,
                };
                let right = match repair_numeric_expression(r.as_str()) {
                    Some(x) => x,
                    None => return None,
                };
                return if op == '+' {
                    left.add(right)
                } else if op == '-' {
                    left.sub(right)
                } else if op == '*' {
                    left.mul(right)
                } else {
                    left.div(right)
                };
            },
            None => {},
        }
        i += 1;
    }
    assert(numeric_split(t@, ops@[0]) is None);
    assert(numeric_split(t@, ops@[1]) is None);
    assert(numeric_split(t@, ops@[2]) is None);
    assert(numeric_split(t@, ops@[3]) is None);
    proof { reveal_strlit("-"); }
    assert("-"@ =~= seq!['-']);
    if starts_with(t.as_str(), "-") {
        let v = chars_of(t.as_str());
        let rest = string_from(&v, 1, v.len());
        assert(v@.subrange(1, v@.len() as int) =~= t@.skip(1));
        return match repair_numeric_expression(rest.as_str()) {
            Some(x) => x.negate(),
            None => None,
        };
    }
    None
}

/// An operation on two rationals, by its operator: `+`, `-`, `*` or `/`.
pub open spec fn rational_operation(op: char, a: RepairRational, b: RepairRational) -> Option<RepairRational> {
    if op == '+' {
        rational_addition(a, b)
    } else if op == '-' {
        rational_subtraction(a, b)
    } else if op == '*' {
        rational_product(a, b)
    } else {
        rational_quotient(a, b)
    }
}

/// The value of a constant arithmetic expression as a rational in lowest terms: read
/// as for decimals, but any quotient of non-zero values is exact.
pub open spec fn rational_expression(p: Seq<char>) -> Option<RepairRational>
    decreases p.len(),
{
    let t = strip_parens(trim(p));
    proof {
        lemma_trim_len(p);
        lemma_strip_parens_len(trim(p));
        lemma_numeric_split_shorter(t, '+');
        lemma_numeric_split_shorter(t, '-');
        lemma_numeric_split_shorter(t, '*');
        lemma_numeric_split_shorter(t, '/');
    }
    if t.len() == 0 {
        None
    } else if number_literal(t) is Some {
        rational_of_number(decimal_of(number_literal(t)->0))
    } else if numeric_split(t, '+') is Some || numeric_split(t, '-') is Some || numeric_split(t, '*') is Some
        || numeric_split(t, '/') is Some {
        let op = if numeric_split(t, '+') is Some {
            '+'
        } else if numeric_split(t, '-') is Some {
            '-'
        } else if numeric_split(t, '*') is Some {
            '*'
        } else {
            '/'
        };
        let (l, r) = numeric_split(t, op)->0;
        match (rational_expression(l), rational_expression(r)) {
            (Some(a), Some(b)) => rational_operation(op, a, b),
            _ => None,
        }
    } else if has_prefix(t, seq!['-']) {
        match rational_expression(t.skip(1)) {
            Some(x) => rational_negation(x),
            None => None,
        }
    } else {
        None
    }
}

/// The value of a constant arithmetic expression as a rational in lowest terms, when
/// every step fits.
pub fn repair_numeric_rational_expression(predicate: &str) -> (r: Option<RepairRational>)
    ensures
        r == rational_expression(predicate@),
    decreases predicate@.len(),
{
    let t0 = trimmed(predicate);
    let t = strip_balanced_outer_parens(t0.as_str());
    proof {
        lemma_trim_len(predicate@);
        lemma_strip_parens_len(trim(predicate@));
        lemma_numeric_split_shorter(t@, '+');
        lemma_numeric_split_shorter(t@, '-');
        lemma_numeric_split_shorter(t@, '*');
        lemma_numeric_split_shorter(t@, '/');
    }
    if t.unicode_len() == 0 {
        return None;
    }
    match parse_repair_number_literal(t.as_str()) {
        Some(n) => return RepairRational::from_number(n),
        None => {},
    }
    let ops: [char; 4] = ['+', '-', '*', '/'];
    let mut i: usize = 0;
    while i < 4
        invariant
            0 <= i <= 4,
            ops@ == seq!['+', '-', '*', '/'],
            forall|k: int| 0 <= k < i ==> numeric_split(t@, #[trigger] ops@[k]) is None,
        decreases 4 - i,
    {
        let op = ops[i];
        match split_repair_numeric_operator(t.as_str(), op) {
            Some((l, r)) => {
                let left = match repair_numeric_rational_expression(l.as_str()) {
                    Some(x) => x,
                    None => return None,
                };
                let right = match repair_numeric_rational_expression(r.as_str()) {
                    Some(x) => x,
                    None => return None,
                };
                return if op == '+' {
                    left.add(right)
                } else if op == '-' {
                    left.sub(right)
                } else if op == '*' {
                    left.mul(right)
                } else {
                    left.div(right)
                };
            },
            None => {},
        }
        i += 1;
    }
    assert(numeric_split(t@, ops@[0]) is None);
    assert(numeric_split(t@, ops@[1]) is None);
    assert(numeric_split(t@, ops@[2]) is None);
    assert(numeric_split(t@, ops@[3]) is None);
    proof { reveal_strlit("-"); }
    assert("-"@ =~= seq!['-']);
    if starts_with(t.as_str(), "-") {
        let v = chars_of(t.as_str());
        let rest = string_from(&v, 1, v.len());
        assert(v@.subrange(1, v@.len() as int) =~= t@.skip(1));
        return match repair_numeric_rational_expression(rest.as_str()) {
            Some(x) => x.negate(),
            None => None,
        };
    }
    None
}

/// The text of a string literal's body with its escapes resolved: a backslash keeps
/// the character after it; `None` for an unescaped `"` or a trailing backslash.
pub open spec fn unescaped(s: Seq<char>) -> Option<Seq<char>>
    decreases s.len(),
{
    if s.len() == 0 {
        Some(Seq::empty())
    } else if s[0] == '\\' {
        if s.len() < 2 {
            None
        } else {
            match unescaped(s.skip(2)) {
                Some(r) => Some(seq![s[1]] + r),
                None => None,
            }
        }
    } else if s[0] == '"' {
        None
    } else {
        match unescaped(s.skip(1)) {
            Some(r) => Some(seq![s[0]] + r),
            None => None,
        }
    }
}

/// The value of a string literal written with surrounding quotes.
pub open spec fn string_literal(text: Seq<char>) -> Option<Seq<char>> {
    if text.len() >= 2 && text[0] == '"' && text.last() == '"' {
        unescaped(text.subrange(1, text.len() - 1))
    } else {
        None
    }
}

/// The value of a string literal; a lone `"` is not accepted as one. A lone `"` both
/// opens and closes a quoted text, so its inside would run from after the opening quote
/// to before the closing one, a range that ends before it starts; such an input is
/// left out by `requires`, here and in every reader that reaches this one.
pub fn parse_repair_string_literal(text: &str) -> (r: Option<String>)
    requires
        text@ != seq!['"'],
    ensures
        match r {
            Some(v) => string_literal(text@) == Some(v@),
            None => string_literal(text@) is None,
        },
{
    let v = chars_of(text);
    let n = v.len();
    if n < 2 || v[0] != '"' || v[n - 1] != '"' {
        if n == 1 {
            assert(v@ != seq!['"']);
            assert(v@ =~= seq![v@[0]]);
        }
        return None;
    }
    let ghost body = v@.subrange(1, n - 1);
    let mut out = String::new();
    let mut i: usize = 1;
    assert(body.skip(0) =~= body);
    while i < n - 1
        invariant
            1 <= i <= n - 1,
            n == v@.len(),
            body == v@.subrange(1, n - 1),
            unescaped(body) matches Some(all) ==> (unescaped(body.skip(i - 1)) matches Some(rest) && all == out@ + rest),
            unescaped(body) is None ==> unescaped(body.skip(i - 1)) is None,
        decreases n - 1 - i,
    {
        let ch = v[i];
        let ghost rest = body.skip(i - 1);
        assert(rest[0] == ch);
        if ch == '\\' {
            if i + 1 >= n - 1 {
                assert(rest.len() < 2);
                return None;
            }
            assert(rest.skip(2) =~= body.skip(i + 1));
            assert(rest[1] == v@[i + 1]);
            let ghost before = out@;
            push_char(&mut out, v[i + 1]);
            proof {
                if unescaped(body) is Some {
                    assert(out@ + unescaped(body.skip(i + 1))->0 =~= before + unescaped(rest)->0);
                }
            }
            i += 2;
        } else if ch == '"' {
            return None;
        } else {
            assert(rest.skip(1) =~= body.skip(i as int));
            let ghost before = out@;
            push_char(&mut out, ch);
            proof {
                if unescaped(body) is Some {
                    assert(out@ + unescaped(body.skip(i as int))->0 =~= before + unescaped(rest)->0);
                }
            }
            i += 1;
        }
    }
    assert(body.skip(i - 1) =~= Seq::<char>::empty());
    assert(out@ =~= out@ + Seq::<char>::empty());
    Some(out)
}

/// A literal in a predicate: a boolean, a decimal number or a string.
pub enum RepairLiteral {
    Bool(bool),
    Number(RepairNumber),
    String(String),
}

/// The model of a literal.
pub enum LiteralV {
    Bool(bool),
    Number(RepairNumber),
    Text(Seq<char>),
}

/// The model of a literal.
pub open spec fn literal_view(l: RepairLiteral) -> LiteralV {
    match l {
        RepairLiteral::Bool(b) => LiteralV::Bool(b),
        RepairLiteral::Number(n) => LiteralV::Number(n),
        RepairLiteral::String(s) => LiteralV::Text(s@),
    }
}

/// The literal `text` spells: `true`, `false`, a decimal number, or a string literal.
pub open spec fn literal(text: Seq<char>) -> Option<LiteralV> {
    if text == "true"@ {
        Some(LiteralV::Bool(true))
    } else if text == "false"@ {
        Some(LiteralV::Bool(false))
    } else if number_literal(text) is Some {
        Some(LiteralV::Number(decimal_of(number_literal(text)->0)))
    } else {
        match string_literal(text) {
            Some(v) => Some(LiteralV::Text(v)),
            None => None,
        }
    }
}

impl RepairLiteral {
    /// The literal `text` spells; a lone `"` is not accepted as one.
    pub fn parse(text: &str) -> (r: Option<RepairLiteral>)
        requires
            text@ != seq!['"'],
        ensures
            match r {
                Some(l) => literal(text@) == Some(literal_view(l)),
                None => literal(text@) is None,
            },
    {
        if str_eq(text, "true") {
            return Some(RepairLiteral::Bool(true));
        }
        if str_eq(text, "false") {
            return Some(RepairLiteral::Bool(false));
        }
        match parse_repair_number_literal(text) {
            Some(n) => return Some(RepairLiteral::Number(n)),
            None => {},
        }
        match parse_repair_string_literal(text) {
            Some(v) => Some(RepairLiteral::String(v)),
            None => None,
        }
    }
}

/// The number `text` stands for: a constant expression, else a number literal.
pub open spec fn numeric_literal(text: Seq<char>) -> Option<RepairNumber> {
    match numeric_expression(text) {
        Some(n) => Some(n),
        None => match literal(trim(text)) {
            Some(LiteralV::Number(n)) => Some(n),
            _ => None,
        },
    }
}

/// The number `text` stands for, as a constant expression or a literal; a lone `"`
/// (after trimming) is not accepted.
pub fn repair_numeric_literal(text: &str) -> (r: Option<RepairNumber>)
    requires
        trim(text@) != seq!['"'],
    ensures
        r == numeric_literal(text@),
{
    match repair_numeric_expression(text) {
        Some(n) => return Some(n),
        None => {},
    }
    let t = trimmed(text);
    match RepairLiteral::parse(t.as_str()) {
        Some(RepairLiteral::Number(n)) => Some(n),
        _ => None,
    }
}

/// The rational `text` stands for: a constant expression read as rationals, else the
/// number it stands for.
pub open spec fn order_literal(text: Seq<char>) -> Option<RepairRational> {
    match rational_expression(text) {
        Some(q) => Some(q),
        None => match numeric_literal(text) {
            Some(n) => rational_of_number(n),
            None => None,
        },
    }
}

/// The rational `text` stands for, for comparing by order; a lone `"` (after trimming)
/// is not accepted.
pub fn repair_numeric_order_literal(text: &str) -> (r: Option<RepairRational>)
    requires
        trim(text@) != seq!['"'],
    ensures
        r == order_literal(text@),
{
    match repair_numeric_rational_expression(text) {
        Some(q) => return Some(q),
        None => {},
    }
    match repair_numeric_literal(text) {
        Some(n) => RepairRational::from_number(n),
        None => None,
    }
}

/// Whether two literals are known to differ: two numbers of different value, or two
/// literals of different kinds or contents.
pub open spec fn literals_distinct(left: Seq<char>, right: Seq<char>) -> bool {
    match (numeric_literal(left), numeric_literal(right)) {
        (Some(a), Some(b)) => a != b,
        _ => match (literal(trim(left)), literal(trim(right))) {
            (Some(a), Some(b)) => a != b,
            _ => false,
        },
    }
}

/// Whether two literal texts are known to stand for different values; a lone `"`
/// (after trimming) is not accepted on either side.
pub fn repair_literals_are_distinct(left: &str, right: &str) -> (r: bool)
    requires
        trim(left@) != seq!['"'],
        trim(right@) != seq!['"'],
    ensures
        r == literals_distinct(left@, right@),
{
    let l = repair_numeric_literal(left);
    let r = repair_numeric_literal(right);
    match (l, r) {
        (Some(a), Some(b)) => return a != b,
        _ => {},
    }
    let lt = trimmed(left);
    let rt = trimmed(right);
    let a = match RepairLiteral::parse(lt.as_str()) {
        Some(a) => a,
        None => return false,
    };
    let b = match RepairLiteral::parse(rt.as_str()) {
        Some(b) => b,
        None => return false,
    };
    match (a, b) {
        (RepairLiteral::Bool(x), RepairLiteral::Bool(y)) => x != y,
        (RepairLiteral::Number(x), RepairLiteral::Number(y)) => x != y,
        (RepairLiteral::String(x), RepairLiteral::String(y)) => !str_eq(x.as_str(), y.as_str()),
        _ => true,
    }
}

/// Whether `text` is an atom: a dotted path of plain names, or a numeric constant.
pub open spec fn atom_text(text: Seq<char>) -> bool {
    operand_path_view(text) is Some || order_literal(text) is Some
}

/// Whether deciding if `text` is an atom stays clear of a lone `"`.
pub open spec fn atom_text_safe(text: Seq<char>) -> bool {
    operand_path_view(text) is Some || trim(text) != seq!['"']
}

/// Whether `text` is a path of plain names or a numeric constant.
pub fn is_repair_atom_text(text: &str) -> (r: bool)
    requires
        atom_text_safe(text@),
    ensures
        r == atom_text(text@),
{
    if operand_path(text).is_some() {
        return true;
    }
    repair_numeric_order_literal(text).is_some()
}

/// The first `)` in `s` from position `j` on.
pub open spec fn next_close(s: Seq<char>, j: int) -> Option<int>
    decreases s.len() - j,
{
    if j < 0 || j >= s.len() {
        None
    } else if s[j] == ')' {
        Some(j)
    } else {
        next_close(s, j + 1)
    }
}

pub proof fn lemma_next_close(s: Seq<char>, j: int)
    requires
        0 <= j,
    ensures
        next_close(s, j) matches Some(k) ==> j <= k < s.len() && s[k] == ')',
    decreases s.len() - j,
{
    if j < s.len() && s[j] != ')' {
        lemma_next_close(s, j + 1);
    }
}

/// `s` from `cursor` on with each `(atom)` replaced by the atom, where the atom is what
/// stands between a `(` and the first `)` after it.
pub open spec fn atom_strip_scan(s: Seq<char>, cursor: int) -> Seq<char>
    decreases s.len() - cursor,
{
    if cursor < 0 || cursor >= s.len() {
        Seq::empty()
    } else if s[cursor] == '(' && next_close(s, cursor + 1) is Some && atom_text(s.subrange(cursor + 1, next_close(s, cursor + 1)->0)) {
        proof { lemma_next_close(s, cursor + 1); }
        let k = next_close(s, cursor + 1)->0;
        s.subrange(cursor + 1, k) + atom_strip_scan(s, k + 1)
    } else {
        seq![s[cursor]] + atom_strip_scan(s, cursor + 1)
    }
}

/// Whether every `(...)` the stripping scan inspects stays clear of a lone `"`.
pub open spec fn atom_strip_safe(s: Seq<char>, cursor: int) -> bool
    decreases s.len() - cursor,
{
    if cursor < 0 || cursor >= s.len() {
        true
    } else if s[cursor] == '(' && next_close(s, cursor + 1) is Some {
        proof { lemma_next_close(s, cursor + 1); }
        let k = next_close(s, cursor + 1)->0;
        let inner = s.subrange(cursor + 1, k);
        atom_text_safe(inner) && if atom_text(inner) { atom_strip_safe(s, k + 1) } else { atom_strip_safe(s, cursor + 1) }
    } else {
        atom_strip_safe(s, cursor + 1)
    }
}

/// `s` with each parenthesized atom written without its parentheses.
pub open spec fn atom_strip(s: Seq<char>) -> Seq<char> {
    atom_strip_scan(s, 0)
}

/// The position of the first `)` in `v` from `j` on.
fn find_close(v: &Vec<char>, j: usize) -> (r: Option<usize>)
    requires
        j <= v@.len(),
    ensures
        match r {
            Some(k) => next_close(v@, j as int) == Some(k as int),
            None => next_close(v@, j as int) is None,
        },
{
    let mut k = j;
    while k < v.len()
        invariant
            j <= k <= v@.len(),
            next_close(v@, j as int) == next_close(v@, k as int),
        decreases v.len() - k,
    {
        if v[k] == ')' {
            return Some(k);
        }
        k += 1;
    }
    None
}

/// `predicate` with each parenthesized atom written without its parentheses.
pub fn strip_redundant_repair_atom_parens(predicate: &str) -> (r: String)
    requires
        atom_strip_safe(predicate@, 0),
    ensures
        r@ == atom_strip(predicate@),
{
    let v = chars_of(predicate);
    let mut out = String::new();
    let mut cursor: usize = 0;
    while cursor < v.len()
        invariant
            0 <= cursor <= v@.len(),
            v@ == predicate@,
            atom_strip_safe(v@, cursor as int),
            out@ + atom_strip_scan(v@, cursor as int) == atom_strip(predicate@),
        decreases v.len() - cursor,
    {
        let ghost before = out@;
        if v[cursor] == '(' {
            match find_close(&v, cursor + 1) {
                Some(k) => {
                    proof { lemma_next_close(v@, cursor + 1); }
                    let inner = string_from(&v, cursor + 1, k);
                    if is_repair_atom_text(inner.as_str()) {
                        let mut j = cursor + 1;
                        while j < k
                            invariant
                                cursor + 1 <= j <= k < v@.len(),
                                out@ == before + v@.subrange(cursor + 1, j as int),
                            decreases k - j,
                        {
                            push_char(&mut out, v[j]);
                            assert(out@ =~= before + v@.subrange(cursor + 1, j + 1));
                            j += 1;
                        }
                        assert(out@ + atom_strip_scan(v@, k + 1) =~= before + atom_strip_scan(v@, cursor as int));
                        cursor = k + 1;
                        continue;
                    }
                },
                None => {},
            }
        }
        push_char(&mut out, v[cursor]);
        assert(out@ + atom_strip_scan(v@, cursor + 1) =~= before + atom_strip_scan(v@, cursor as int));
        cursor += 1;
    }
    assert(out@ =~= out@ + Seq::<char>::empty());
    out
}

proof fn lemma_atom_strip_len(s: Seq<char>, cursor: int)
    requires
        0 <= cursor <= s.len(),
    ensures
        atom_strip_scan(s, cursor).len() <= s.len() - cursor,
        atom_strip_scan(s, cursor).len() == s.len() - cursor ==> atom_strip_scan(s, cursor) == s.skip(cursor),
    decreases s.len() - cursor,
{
    if cursor < s.len() {
        if s[cursor] == '(' && next_close(s, cursor + 1) is Some && atom_text(s.subrange(cursor + 1, next_close(s, cursor + 1)->0)) {
            lemma_next_close(s, cursor + 1);
            let k = next_close(s, cursor + 1)->0;
            lemma_atom_strip_len(s, k + 1);
        } else {
            lemma_atom_strip_len(s, cursor + 1);
            if atom_strip_scan(s, cursor).len() == s.len() - cursor {
                assert(seq![s[cursor]] + s.skip(cursor + 1) =~= s.skip(cursor));
            }
        }
    } else {
        assert(s.skip(cursor) =~= Seq::<char>::empty());
    }
}

/// Stripping atom parentheses changes the text only by making it shorter.
pub proof fn lemma_atom_strip_shorter(s: Seq<char>)
    ensures
        atom_strip(s) != s ==> atom_strip(s).len() < s.len(),
{
    lemma_atom_strip_len(s, 0);
    assert(s.skip(0) =~= s);
}

/// Atom parentheses stripped again and again until nothing changes.
pub open spec fn atoms_unwrapped(s: Seq<char>) -> Seq<char>
    decreases s.len(),
{
    let t = atom_strip(s);
    proof { lemma_atom_strip_shorter(s); }
    if t == s { s } else { atoms_unwrapped(t) }
}

/// Whether every round of stripping stays clear of a lone `"`.
pub open spec fn atoms_unwrap_safe(s: Seq<char>) -> bool
    decreases s.len(),
{
    let t = atom_strip(s);
    proof { lemma_atom_strip_shorter(s); }
    atom_strip_safe(s, 0) && (t == s || atoms_unwrap_safe(t))
}

/// An expression compacted, with every parenthesized atom unwrapped.
pub open spec fn direct_expression(p: Seq<char>) -> Seq<char> {
    atoms_unwrapped(compact(p))
}

/// Whether reading `p` as a direct expression stays clear of a lone `"`.
pub open spec fn direct_expression_safe(p: Seq<char>) -> bool {
    atoms_unwrap_safe(compact(p))
}

/// `predicate` without white space outside strings and with parenthesized atoms
/// unwrapped, as far as that goes.
pub fn compact_direct_repair_expression_text(predicate: &str) -> (r: String)
    requires
        direct_expression_safe(predicate@),
    ensures
        r@ == direct_expression(predicate@),
{
    let mut current = compact_predicate_text(predicate);
    loop
        invariant
            atoms_unwrap_safe(current@),
            atoms_unwrapped(current@) == direct_expression(predicate@),
        decreases current@.len(),
    {
        proof { lemma_atom_strip_shorter(current@); }
        let stripped = strip_redundant_repair_atom_parens(current.as_str());
        if str_eq(stripped.as_str(), current.as_str()) {
            return current;
        }
        current = stripped;
    }
}

} // verus!
