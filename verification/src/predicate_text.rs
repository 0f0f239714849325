use vstd::prelude::*;

use crate::ast::BinaryOp;
use crate::text::{chars_of, push_char, str_eq, string_of};

verus! {

/// Whether `c` is white space in the Unicode sense that `str::trim` and
/// `str::split_whitespace` use.
pub open spec fn is_white(c: char) -> bool {
    c == '\t' || c == '\n' || c == '\u{0B}' || c == '\u{0C}' || c == '\r' || c == ' ' || c == '\u{85}'
        || c == '\u{A0}' || c == '\u{1680}' || ('\u{2000}' <= c && c <= '\u{200A}') || c == '\u{2028}'
        || c == '\u{2029}' || c == '\u{202F}' || c == '\u{205F}' || c == '\u{3000}'
}

/// Whether `c` is white space.
pub fn is_whitespace(c: char) -> (r: bool)
    ensures
        r == is_white(c),
{
    c == '\t' || c == '\n' || c == '\u{0B}' || c == '\u{0C}' || c == '\r' || c == ' ' || c == '\u{85}'
        || c == '\u{A0}' || c == '\u{1680}' || ('\u{2000}' <= c && c <= '\u{200A}') || c == '\u{2028}'
        || c == '\u{2029}' || c == '\u{202F}' || c == '\u{205F}' || c == '\u{3000}'
}

/// `s` without leading white space.
pub open spec fn trim_start(s: Seq<char>) -> Seq<char>
    decreases s.len(),
{
    if s.len() > 0 && is_white(s[0]) { trim_start(s.drop_first()) } else { s }
}

/// `s` without trailing white space.
pub open spec fn trim_end(s: Seq<char>) -> Seq<char>
    decreases s.len(),
{
    if s.len() > 0 && is_white(s.last()) { trim_end(s.drop_last()) } else { s }
}

/// `s` without leading or trailing white space.
pub open spec fn trim(s: Seq<char>) -> Seq<char> {
    trim_end(trim_start(s))
}

pub proof fn lemma_trim_start_len(s: Seq<char>)
    ensures
        trim_start(s).len() <= s.len(),
    decreases s.len(),
{
    if s.len() > 0 && is_white(s[0]) {
        lemma_trim_start_len(s.drop_first());
    }
}

pub proof fn lemma_trim_end_len(s: Seq<char>)
    ensures
        trim_end(s).len() <= s.len(),
    decreases s.len(),
{
    if s.len() > 0 && is_white(s.last()) {
        lemma_trim_end_len(s.drop_last());
    }
}

pub proof fn lemma_trim_len(s: Seq<char>)
    ensures
        trim(s).len() <= s.len(),
{
    lemma_trim_start_len(s);
    lemma_trim_end_len(trim_start(s));
}

/// A string of the characters `v[start..end]`.
pub fn string_from(v: &Vec<char>, start: usize, end: usize) -> (r: String)
    requires
        start <= end <= v@.len(),
    ensures
        r@ == v@.subrange(start as int, end as int),
{
    let mut out = String::new();
    let mut i = start;
    while i < end
        invariant
            start <= i <= end,
            end <= v@.len(),
            out@ == v@.subrange(start as int, i as int),
        decreases end - i,
    {
        push_char(&mut out, v[i]);
        assert(v@.subrange(start as int, i + 1) =~= v@.subrange(start as int, i as int).push(v@[i as int]));
        i += 1;
    }
    out
}

/// The bounds of `s` with leading and trailing white space left out.
fn trim_bounds(v: &Vec<char>) -> (r: (usize, usize))
    ensures
        r.0 <= r.1 <= v@.len(),
        v@.subrange(r.0 as int, r.1 as int) == trim(v@),
{
    let mut start: usize = 0;
    assert(v@.subrange(0, v@.len() as int) =~= v@);
    while start < v.len() && is_whitespace(v[start])
        invariant
            start <= v@.len(),
            trim_start(v@) == trim_start(v@.subrange(start as int, v@.len() as int)),
        decreases v.len() - start,
    {
        assert(v@.subrange(start as int, v@.len() as int).drop_first() =~= v@.subrange(start + 1, v@.len() as int));
        start += 1;
    }
    let mut end = v.len();
    assert(trim_start(v@) == v@.subrange(start as int, v@.len() as int));
    while end > start && is_whitespace(v[end - 1])
        invariant
            start <= end <= v@.len(),
            trim(v@) == trim_end(v@.subrange(start as int, end as int)),
        decreases end,
    {
        assert(v@.subrange(start as int, end as int).drop_last() =~= v@.subrange(start as int, end - 1));
        end -= 1;
    }
    (start, end)
}

/// `s` without leading or trailing white space.
pub fn trimmed(s: &str) -> (r: String)
    ensures
        r@ == trim(s@),
{
    let v = chars_of(s);
    let (a, b) = trim_bounds(&v);
    string_from(&v, a, b)
}

/// Whether `c` is an ASCII letter.
pub open spec fn is_alpha(c: char) -> bool {
    ('a' <= c && c <= 'z') || ('A' <= c && c <= 'Z')
}

/// Whether `c` may continue a plain identifier.
pub open spec fn is_ident_char(c: char) -> bool {
    is_alpha(c) || ('0' <= c && c <= '9') || c == '_'
}

/// Whether `s` is a plain identifier: an ASCII letter or `_`, then ASCII letters,
/// digits or `_`.
pub open spec fn plain_identifier(s: Seq<char>) -> bool {
    s.len() > 0 && (is_alpha(s[0]) || s[0] == '_') && forall|i: int| 1 <= i < s.len() ==> is_ident_char(#[trigger] s[i])
}

/// Whether `value` is a plain identifier.
pub fn is_plain_identifier(value: &str) -> (r: bool)
    ensures
        r == plain_identifier(value@),
{
    let v = chars_of(value);
    if v.len() == 0 {
        return false;
    }
    let first = v[0];
    if !(('a' <= first && first <= 'z') || ('A' <= first && first <= 'Z') || first == '_') {
        return false;
    }
    let mut i: usize = 1;
    while i < v.len()
        invariant
            1 <= i <= v@.len(),
            v@ == value@,
            forall|k: int| 1 <= k < i ==> is_ident_char(#[trigger] v@[k]),
        decreases v.len() - i,
    {
        let c = v[i];
        if !(('a' <= c && c <= 'z') || ('A' <= c && c <= 'Z') || ('0' <= c && c <= '9') || c == '_') {
            assert(!is_ident_char(v@[i as int]));
            return false;
        }
        i += 1;
    }
    true
}

/// The pieces of `s` between the occurrences of `sep`.
pub open spec fn split_on(s: Seq<char>, sep: char) -> Seq<Seq<char>>
    decreases s.len(),
{
    if s.len() == 0 {
        seq![Seq::empty()]
    } else {
        let rest = split_on(s.drop_first(), sep);
        if s[0] == sep {
            seq![Seq::<char>::empty()] + rest
        } else {
            rest.update(0, seq![s[0]] + rest[0])
        }
    }
}

pub proof fn lemma_split_on_nonempty(s: Seq<char>, sep: char)
    ensures
        split_on(s, sep).len() >= 1,
    decreases s.len(),
{
    if s.len() > 0 {
        lemma_split_on_nonempty(s.drop_first(), sep);
    }
}

/// The dot-separated path an operand names, when every segment is a plain identifier.
pub open spec fn operand_path_view(value: Seq<char>) -> Option<Seq<Seq<char>>> {
    let segments = split_on(trim(value), '.');
    if forall|i: int| 0 <= i < segments.len() ==> plain_identifier(trim(#[trigger] segments[i])) {
        Some(Seq::new(segments.len(), |i: int| trim(segments[i])))
    } else {
        None
    }
}

/// Splits `v[start..end]` at every `sep`, from the end backwards.
fn split_range(v: &Vec<char>, start: usize, end: usize, sep: char) -> (r: Vec<String>)
    requires
        start <= end <= v@.len(),
    ensures
        r.deep_view() == split_on(v@.subrange(start as int, end as int), sep),
    decreases end - start,
{
    let mut k = start;
    while k < end && v[k] != sep
        invariant
            start <= k <= end,
            end <= v@.len(),
            forall|j: int| start <= j < k ==> v@[j] != sep,
        decreases end - k,
    {
        k += 1;
    }
    let head = string_from(v, start, k);
    let mut out: Vec<String> = Vec::new();
    out.push(head);
    if k < end {
        let mut rest = split_range(v, k + 1, end, sep);
        out.append(&mut rest);
    }
    proof {
        lemma_split_prefix(v@.subrange(start as int, end as int), (k - start) as int, sep);
        assert(v@.subrange(start as int, end as int).subrange(0, (k - start) as int) =~= v@.subrange(start as int, k as int));
        if k < end {
            assert(v@.subrange(start as int, end as int).subrange((k - start) + 1, (end - start) as int) =~= v@.subrange(k + 1, end as int));
        }
    }
    out
}

/// Splitting at the first separator gives the piece before it, then the split of the rest.
proof fn lemma_split_prefix(s: Seq<char>, k: int, sep: char)
    requires
        0 <= k <= s.len(),
        forall|j: int| 0 <= j < k ==> s[j] != sep,
        k < s.len() ==> s[k] == sep,
    ensures
        k == s.len() ==> split_on(s, sep) == seq![s],
        k < s.len() ==> split_on(s, sep) == seq![s.subrange(0, k)] + split_on(s.subrange(k + 1, s.len() as int), sep),
    decreases k,
{
    if k == 0 {
        if s.len() == 0 {
            assert(s =~= Seq::<char>::empty());
            assert(split_on(s, sep) =~= seq![s]);
        } else {
            assert(s.drop_first() =~= s.subrange(1, s.len() as int));
            assert(s.subrange(0, 0) =~= Seq::<char>::empty());
        }
    } else {
        let t = s.drop_first();
        lemma_split_prefix(t, k - 1, sep);
        lemma_split_on_nonempty(t, sep);
        if k == s.len() {
            assert(seq![s[0]] + t =~= s);
            assert(split_on(s, sep) =~= seq![s]);
        } else {
            assert(t.subrange(k, t.len() as int) =~= s.subrange(k + 1, s.len() as int));
            assert(seq![s[0]] + t.subrange(0, k - 1) =~= s.subrange(0, k));
            assert(split_on(s, sep) =~= seq![s.subrange(0, k)] + split_on(s.subrange(k + 1, s.len() as int), sep));
        }
    }
}

/// The pieces of `s` between the occurrences of `sep`.
pub fn split_on_char(s: &str, sep: char) -> (r: Vec<String>)
    ensures
        r.deep_view() == split_on(s@, sep),
{
    let v = chars_of(s);
    let r = split_range(&v, 0, v.len(), sep);
    assert(v@.subrange(0, v@.len() as int) =~= v@);
    r
}

/// The dot-separated path an operand names, when every segment is a plain identifier.
pub fn operand_path(value: &str) -> (r: Option<Vec<String>>)
    ensures
        match r {
            Some(p) => operand_path_view(value@) == Some(p.deep_view()),
            None => operand_path_view(value@) is None,
        },
{
    let t = trimmed(value);
    let v = chars_of(t.as_str());
    let pieces = split_range(&v, 0, v.len(), '.');
    assert(v@.subrange(0, v@.len() as int) =~= v@);
    let ghost segs = split_on(trim(value@), '.');
    let mut out: Vec<String> = Vec::new();
    let mut i: usize = 0;
    while i < pieces.len()
        invariant
            0 <= i <= pieces@.len(),
            pieces.deep_view() == segs,
            out.deep_view() == Seq::new(i as nat, |k: int| trim(segs[k])),
            forall|k: int| 0 <= k < i ==> plain_identifier(trim(#[trigger] segs[k])),
        decreases pieces.len() - i,
    {
        assert(pieces@[i as int]@ == segs[i as int]);
        let segment = trimmed(pieces[i].as_str());
        if !is_plain_identifier(segment.as_str()) {
            assert(!plain_identifier(trim(segs[i as int])));
            return None;
        }
        let ghost before = out.deep_view();
        let ghost sv = segment@;
        out.push(segment);
        assert(out.deep_view() =~= before.push(sv));
        assert(out.deep_view() =~= Seq::new((i + 1) as nat, |k: int| trim(segs[k])));
        i += 1;
    }
    Some(out)
}

/// The binding a reflexive comparison of paths suggests: when the left path starts at
/// the candidate, the right one at another plain name, and the rest of the paths agree,
/// that other name.
pub open spec fn path_binding(left: Seq<Seq<char>>, right: Seq<Seq<char>>, candidate: Seq<char>) -> Option<Seq<char>> {
    if left.len() == 0 || right.len() == 0 || left[0] != candidate || right[0] == candidate || !plain_identifier(right[0])
        || left.drop_first() != right.drop_first() {
        None
    } else {
        Some(right[0])
    }
}

/// The binding a reflexive comparison of paths suggests.
pub fn reflexive_path_binding(left: &Vec<String>, right: &Vec<String>, candidate: &str) -> (r: Option<String>)
    ensures
        match r {
            Some(b) => path_binding(left.deep_view(), right.deep_view(), candidate@) == Some(b@),
            None => path_binding(left.deep_view(), right.deep_view(), candidate@) is None,
        },
{
    if left.len() == 0 || right.len() == 0 {
        return None;
    }
    if !str_eq(left[0].as_str(), candidate) || str_eq(right[0].as_str(), candidate) || !is_plain_identifier(right[0].as_str()) {
        return None;
    }
    if left.len() != right.len() {
        assert(left.deep_view().drop_first().len() != right.deep_view().drop_first().len());
        return None;
    }
    let mut i: usize = 1;
    while i < left.len()
        invariant
            1 <= i <= left@.len(),
            left@.len() == right@.len(),
            forall|k: int| 1 <= k < i ==> left.deep_view()[k] == right.deep_view()[k],
        decreases left.len() - i,
    {
        if !str_eq(left[i].as_str(), right[i].as_str()) {
            assert(left.deep_view().drop_first()[i - 1] != right.deep_view().drop_first()[i - 1]);
            return None;
        }
        i += 1;
    }
    assert(left.deep_view().drop_first() =~= right.deep_view().drop_first());
    Some(right[0].clone())
}

/// The relation a clause states between two operands, in a fixed total order.
#[derive(Clone, Copy, PartialEq, Eq, Structural)]
pub enum TotalOrderRelation {
    Less,
    Equal,
    Greater,
}

impl TotalOrderRelation {
    /// The relation's bit in a set of relations.
    pub fn bit(self) -> (r: u8)
        ensures
            r == match self {
                TotalOrderRelation::Less => 1u8,
                TotalOrderRelation::Equal => 2u8,
                TotalOrderRelation::Greater => 4u8,
            },
    {
        match self {
            TotalOrderRelation::Less => 1,
            TotalOrderRelation::Equal => 2,
            TotalOrderRelation::Greater => 4,
        }
    }

    /// The relation with its operands swapped.
    pub fn invert(self) -> (r: TotalOrderRelation)
        ensures
            r == inverted(self),
    {
        match self {
            TotalOrderRelation::Less => TotalOrderRelation::Greater,
            TotalOrderRelation::Equal => TotalOrderRelation::Equal,
            TotalOrderRelation::Greater => TotalOrderRelation::Less,
        }
    }
}

/// The relation with its operands swapped.
pub open spec fn inverted(r: TotalOrderRelation) -> TotalOrderRelation {
    match r {
        TotalOrderRelation::Less => TotalOrderRelation::Greater,
        TotalOrderRelation::Equal => TotalOrderRelation::Equal,
        TotalOrderRelation::Greater => TotalOrderRelation::Less,
    }
}

/// Whether `op` compares by order.
pub fn is_ordering_op(op: BinaryOp) -> (r: bool)
    ensures
        r == crate::expressions::is_ordering(op),
{
    op == BinaryOp::Less || op == BinaryOp::LessEqual || op == BinaryOp::Greater || op == BinaryOp::GreaterEqual
}


/// Whether `p` occurs in `s` at position `j`.
pub open spec fn occurs_at(s: Seq<char>, p: Seq<char>, j: int) -> bool {
    0 <= j && j + p.len() <= s.len() && s.subrange(j, j + p.len()) == p
}

/// The first position, from `i` on, where `p` occurs in `s`.
pub open spec fn find_from(s: Seq<char>, p: Seq<char>, i: int) -> Option<int>
    decreases s.len() + 1 - i,
{
    if i < 0 || i + p.len() > s.len() {
        None
    } else if occurs_at(s, p, i) {
        Some(i)
    } else {
        find_from(s, p, i + 1)
    }
}

pub proof fn lemma_find_from(s: Seq<char>, p: Seq<char>, i: int)
    ensures
        find_from(s, p, i) matches Some(k) ==> i <= k && occurs_at(s, p, k),
    decreases s.len() + 1 - i,
{
    if !(i < 0 || i + p.len() > s.len()) && !occurs_at(s, p, i) {
        lemma_find_from(s, p, i + 1);
    }
}

/// `s` split at the first occurrence of `p`.
pub open spec fn split_once_view(s: Seq<char>, p: Seq<char>) -> Option<(Seq<char>, Seq<char>)> {
    match find_from(s, p, 0) {
        Some(k) => Some((s.subrange(0, k), s.subrange(k + p.len(), s.len() as int))),
        None => None,
    }
}

/// Whether `p` occurs in `v` at position `j`.
pub(crate) fn occurs_here(v: &Vec<char>, p: &Vec<char>, j: usize) -> (r: bool)
    requires
        j + p@.len() <= v@.len(),
    ensures
        r == occurs_at(v@, p@, j as int),
{
    let n = v.len();
    let mut k: usize = 0;
    while k < p.len()
        invariant
            0 <= k <= p@.len(),
            j + p@.len() <= v@.len(),
            forall|m: int| 0 <= m < k ==> v@[j + m] == p@[m],
        decreases p.len() - k,
    {
        if v[j + k] != p[k] {
            assert(v@.subrange(j as int, j + p@.len())[k as int] != p@[k as int]);
            return false;
        }
        k += 1;
    }
    assert(v@.subrange(j as int, j + p@.len()) =~= p@);
    true
}

/// `s` split at the first occurrence of `p`.
pub fn split_once(s: &str, p: &str) -> (r: Option<(String, String)>)
    ensures
        match r {
            Some((a, b)) => split_once_view(s@, p@) == Some((a@, b@)),
            None => split_once_view(s@, p@) is None,
        },
{
    let v = chars_of(s);
    let pv = chars_of(p);
    if pv.len() > v.len() {
        return None;
    }
    let last = v.len() - pv.len();
    let mut i: usize = 0;
    loop
        invariant
            v@ == s@,
            pv@ == p@,
            pv@.len() <= v@.len(),
            last == v@.len() - pv@.len(),
            i <= last,
            find_from(s@, p@, 0) == find_from(s@, p@, i as int),
        decreases last - i,
    {
        if occurs_here(&v, &pv, i) {
            let a = string_from(&v, 0, i);
            let b = string_from(&v, i + pv.len(), v.len());
            return Some((a, b));
        }
        if i == last {
            assert(find_from(s@, p@, i + 1) is None);
            return None;
        }
        i += 1;
    }
}

/// A comparison clause split at its operator: the first of `==`, `!=`, `<=`, `>=`, `<`,
/// `>` that occurs in it, with both sides trimmed and not empty.
pub struct ParsedRepairComparison {
    pub clause: String,
    pub left: String,
    pub operator: &'static str,
    pub right: String,
}

/// The comparison operators, in the order a clause is tried against them.
pub open spec fn comparison_operators() -> Seq<Seq<char>> {
    seq!["=="@, "!="@, "<="@, ">="@, "<"@, ">"@]
}

/// The split of `clause` at the first operator, from position `i` of the list on, that
/// occurs in it; `None` when no operator occurs or a side is blank.
pub open spec fn parse_comparison_from(clause: Seq<char>, i: int) -> Option<(Seq<char>, Seq<char>, Seq<char>)>
    decreases 6 - i,
{
    if i < 0 || i >= 6 {
        None
    } else {
        match split_once_view(clause, comparison_operators()[i]) {
            Some((l, r)) => if trim(l).len() == 0 || trim(r).len() == 0 {
                None
            } else {
                Some((trim(l), comparison_operators()[i], trim(r)))
            },
            None => parse_comparison_from(clause, i + 1),
        }
    }
}

impl ParsedRepairComparison {
    /// Splits a comparison clause at its operator.
    pub fn parse(clause: &str) -> (r: Option<ParsedRepairComparison>)
        ensures
            match r {
                Some(c) => parse_comparison_from(clause@, 0) == Some((c.left@, c.operator@, c.right@)) && c.clause@ == clause@,
                None => parse_comparison_from(clause@, 0) is None,
            },
    {
        let operators: [&'static str; 6] = ["==", "!=", "<=", ">=", "<", ">"];
        proof {
            reveal_strlit("==");
            reveal_strlit("!=");
            reveal_strlit("<=");
            reveal_strlit(">=");
            reveal_strlit("<");
            reveal_strlit(">");
            assert forall|k: int| 0 <= k < 6 implies (#[trigger] operators@[k])@ == comparison_operators()[k] by {}
        }
        let mut i: usize = 0;
        while i < 6
            invariant
                0 <= i <= 6,
                operators@.len() == 6,
                forall|k: int| 0 <= k < 6 ==> (#[trigger] operators@[k])@ == comparison_operators()[k],
                parse_comparison_from(clause@, 0) == parse_comparison_from(clause@, i as int),
            decreases 6 - i,
        {
            let operator = operators[i];
            match split_once(clause, operator) {
                Some((l, r)) => {
                    let left = trimmed(l.as_str());
                    let right = trimmed(r.as_str());
                    if left.unicode_len() == 0 || right.unicode_len() == 0 {
                        return None;
                    }
                    return Some(ParsedRepairComparison { clause: string_of(clause), left, operator, right });
                },
                None => {},
            }
            i += 1;
        }
        None
    }
}

/// A comparison with `>` and `>=` turned around into `<` and `<=`.
pub struct NormalizedRepairComparison {
    pub left: String,
    pub operator: &'static str,
    pub right: String,
}

/// A parsed comparison with `>` and `>=` turned around.
pub open spec fn normalized_comparison(p: (Seq<char>, Seq<char>, Seq<char>)) -> (Seq<char>, Seq<char>, Seq<char>) {
    if p.1 == ">"@ {
        (p.2, "<"@, p.0)
    } else if p.1 == ">="@ {
        (p.2, "<="@, p.0)
    } else {
        p
    }
}

impl NormalizedRepairComparison {
    /// Parses a comparison clause, without redundant outer parentheses, facing `<`.
    pub fn parse(clause: &str) -> (r: Option<NormalizedRepairComparison>)
        ensures
            match r {
                Some(c) => (match parse_comparison_from(strip_parens(clause@), 0) {
                    Some(p) => normalized_comparison(p) == (c.left@, c.operator@, c.right@),
                    None => false,
                }),
                None => parse_comparison_from(strip_parens(clause@), 0) is None,
            },
    {
        let stripped = strip_balanced_outer_parens(clause);
        let parsed = match ParsedRepairComparison::parse(stripped.as_str()) {
            Some(p) => p,
            None => return None,
        };
        proof {
            reveal_strlit(">");
            reveal_strlit(">=");
            reveal_strlit("<");
            reveal_strlit("<=");
        }
        if str_eq(parsed.operator, ">") {
            Some(NormalizedRepairComparison { left: parsed.right, operator: "<", right: parsed.left })
        } else if str_eq(parsed.operator, ">=") {
            Some(NormalizedRepairComparison { left: parsed.right, operator: "<=", right: parsed.left })
        } else {
            Some(NormalizedRepairComparison { left: parsed.left, operator: parsed.operator, right: parsed.right })
        }
    }
}

/// Whether `s` starts with a comparison operator.
pub fn starts_with_comparison_operator(s: &str) -> (r: bool)
    ensures
        r == (crate::text::has_prefix(s@, "=="@) || crate::text::has_prefix(s@, "!="@) || crate::text::has_prefix(s@, "<="@)
            || crate::text::has_prefix(s@, ">="@) || crate::text::has_prefix(s@, "<"@) || crate::text::has_prefix(s@, ">"@)),
{
    crate::text::starts_with(s, "==") || crate::text::starts_with(s, "!=") || crate::text::starts_with(s, "<=")
        || crate::text::starts_with(s, ">=") || crate::text::starts_with(s, "<") || crate::text::starts_with(s, ">")
}

/// The net parenthesis depth of `s`.
pub open spec fn depth(s: Seq<char>) -> int
    decreases s.len(),
{
    if s.len() == 0 {
        0
    } else {
        depth(s.drop_last()) + if s.last() == '(' { 1int } else if s.last() == ')' { -1int } else { 0int }
    }
}

/// Whether the first parenthesis of `t` closes at its last character, so that one pair
/// of parentheses wraps all of it.
pub open spec fn wraps_whole(t: Seq<char>) -> bool {
    &&& t.len() >= 2 && t[0] == '(' && t.last() == ')'
    &&& depth(t) == 0
    &&& forall|j: int| 0 <= j < t.len() - 1 && t[j] == ')' ==> depth(#[trigger] t.take(j + 1)) != 0
}

/// `s` trimmed, without the pairs of parentheses that wrap all of it.
pub open spec fn strip_parens(s: Seq<char>) -> Seq<char>
    decreases s.len(),
{
    let t = trim(s);
    if wraps_whole(t) {
        proof { lemma_trim_len(s); }
        strip_parens(t.subrange(1, t.len() - 1))
    } else {
        t
    }
}

/// Whether one pair of parentheses wraps all of `t`.
fn wraps_whole_text(t: &Vec<char>) -> (r: bool)
    ensures
        r == wraps_whole(t@),
{
    let n = t.len();
    if n < 2 || t[0] != '(' || t[n - 1] != ')' {
        return false;
    }
    let mut d: i128 = 0;
    let mut j: usize = 0;
    while j < n
        invariant
            0 <= j <= n,
            n == t@.len(),
            d == depth(t@.take(j as int)),
            -(j as int) <= d <= j,
            forall|m: int| 0 <= m < j && m < n - 1 && t@[m] == ')' ==> depth(#[trigger] t@.take(m + 1)) != 0,
        decreases n - j,
    {
        assert(t@.take(j + 1).drop_last() =~= t@.take(j as int));
        if t[j] == '(' {
            d = d + 1;
        } else if t[j] == ')' {
            d = d - 1;
            if d == 0 && j + 1 != n {
                return false;
            }
        }
        j += 1;
    }
    assert(t@.take(n as int) =~= t@);
    d == 0
}

/// `s` trimmed, without the pairs of parentheses that wrap all of it.
pub fn strip_balanced_outer_parens(predicate: &str) -> (r: String)
    ensures
        r@ == strip_parens(predicate@),
{
    let mut current = string_of(predicate);
    loop
        invariant
            strip_parens(current@) == strip_parens(predicate@),
        decreases current@.len(),
    {
        let t = trimmed(current.as_str());
        let v = chars_of(t.as_str());
        proof { lemma_trim_len(current@); }
        if !wraps_whole_text(&v) {
            return t;
        }
        current = string_from(&v, 1, v.len() - 1);
    }
}

/// The operand of a leading `not`: what follows `not `, or the inside of `not(...)`,
/// trimmed.
pub open spec fn not_operand(p: Seq<char>) -> Option<Seq<char>> {
    if crate::text::has_prefix(p, "not "@) {
        Some(p.skip(4))
    } else if crate::text::has_prefix(p, "not("@) {
        let rest = p.skip(4);
        Some(trim(if rest.len() > 0 && rest.last() == ')' { rest.drop_last() } else { rest }))
    } else {
        None
    }
}

/// The operand of a leading `not`.
pub fn stripped_not_operand(predicate: &str) -> (r: Option<String>)
    ensures
        match r {
            Some(o) => not_operand(predicate@) == Some(o@),
            None => not_operand(predicate@) is None,
        },
{
    proof {
        reveal_strlit("not ");
        reveal_strlit("not(");
    }
    let v = chars_of(predicate);
    if crate::text::starts_with(predicate, "not ") {
        let rest = string_from(&v, 4, v.len());
        assert(v@.subrange(4, v@.len() as int) =~= predicate@.skip(4));
        return Some(rest);
    }
    if crate::text::starts_with(predicate, "not(") {
        let end = if v.len() > 4 && v[v.len() - 1] == ')' { v.len() - 1 } else { v.len() };
        let rest = string_from(&v, 4, end);
        proof {
            let r = predicate@.skip(4);
            if r.len() > 0 && r.last() == ')' {
                assert(v@.subrange(4, end as int) =~= r.drop_last());
            } else {
                assert(v@.subrange(4, end as int) =~= r);
            }
        }
        return Some(trimmed(rest.as_str()));
    }
    None
}


/// The white-space separated words of `s`, from the end: `trailing` is the word being
/// read when `s` is followed by more non-white characters.
pub open spec fn words(s: Seq<char>) -> Seq<Seq<char>>
    decreases s.len(),
{
    if s.len() == 0 {
        Seq::empty()
    } else if is_white(s.last()) {
        words(s.drop_last())
    } else {
        let w = words(s.drop_last());
        if s.len() >= 2 && !is_white(s[s.len() - 2]) {
            w.update(w.len() - 1, w.last().push(s.last()))
        } else {
            w.push(seq![s.last()])
        }
    }
}

/// Words joined with single spaces.
pub open spec fn join_words(ws: Seq<Seq<char>>) -> Seq<char>
    decreases ws.len(),
{
    if ws.len() == 0 {
        Seq::empty()
    } else if ws.len() == 1 {
        ws[0]
    } else {
        join_words(ws.drop_last()) + seq![' '] + ws.last()
    }
}

/// `s` with its words joined by single spaces, as `split_whitespace` and `join(" ")` give.
pub open spec fn collapse_ws(s: Seq<char>) -> Seq<char> {
    join_words(words(s))
}

pub proof fn lemma_words_nonempty(s: Seq<char>)
    ensures
        s.len() > 0 && !is_white(s.last()) ==> words(s).len() > 0,
        forall|i: int| 0 <= i < words(s).len() ==> (#[trigger] words(s)[i]).len() > 0,
    decreases s.len(),
{
    if s.len() > 0 {
        lemma_words_nonempty(s.drop_last());
    }
}

/// `s` with its words joined by single spaces.
pub fn collapse_whitespace(s: &str) -> (r: String)
    ensures
        r@ == collapse_ws(s@),
{
    let v = chars_of(s);
    let mut out = String::new();
    let mut i: usize = 0;
    assert(v@.take(0) =~= Seq::<char>::empty());
    while i < v.len()
        invariant
            0 <= i <= v@.len(),
            v@ == s@,
            out@ == collapse_ws(v@.take(i as int)),
        decreases v.len() - i,
    {
        let c = v[i];
        proof {
            let t = v@.take(i + 1);
            assert(t.drop_last() =~= v@.take(i as int));
            lemma_words_nonempty(v@.take(i as int));
            if i >= 1 {
                assert(t[t.len() - 2] == v@[i - 1]);
                assert(v@.take(i as int).last() == v@[i - 1]);
            }
        }
        if !is_whitespace(c) {
            let joins = i > 0 && !is_whitespace(v[i - 1]);
            if !joins && out.unicode_len() > 0 {
                push_char(&mut out, ' ');
            }
            push_char(&mut out, c);
            proof {
                let t = v@.take(i + 1);
                let w = words(v@.take(i as int));
                lemma_join_push(w, c, joins);
            }
        }
        i += 1;
    }
    assert(v@.take(v@.len() as int) =~= v@);
    out
}

/// Adding a character to the last word, or a new one-character word, extends the joined
/// text by that character, after a space when a new word follows earlier ones.
proof fn lemma_join_push(w: Seq<Seq<char>>, c: char, joins: bool)
    requires
        joins ==> w.len() > 0,
        forall|i: int| 0 <= i < w.len() ==> (#[trigger] w[i]).len() > 0,
    ensures
        joins ==> join_words(w.update(w.len() - 1, w.last().push(c))) == join_words(w).push(c),
        !joins ==> join_words(w.push(seq![c])) == if join_words(w).len() > 0 { join_words(w).push(' ').push(c) } else { seq![c] },
{
    lemma_join_len(w);
    if joins {
        let u = w.update(w.len() - 1, w.last().push(c));
        if w.len() == 1 {
            assert(join_words(u) == u[0]);
        } else {
            assert(u.drop_last() =~= w.drop_last());
            assert(join_words(u) == join_words(w.drop_last()) + seq![' '] + w.last().push(c));
            assert(join_words(u) =~= join_words(w).push(c));
        }
    } else {
        let u = w.push(seq![c]);
        assert(u.drop_last() =~= w);
        if w.len() == 0 {
            assert(join_words(u) == seq![c]);
        } else {
            assert(join_words(u) =~= join_words(w).push(' ').push(c));
        }
    }
}

/// The joined text is empty exactly when there are no words (every word being non-empty).
proof fn lemma_join_len(w: Seq<Seq<char>>)
    requires
        forall|i: int| 0 <= i < w.len() ==> (#[trigger] w[i]).len() > 0,
    ensures
        (join_words(w).len() == 0) == (w.len() == 0),
    decreases w.len(),
{
    if w.len() > 1 {
        assert forall|i: int| 0 <= i < w.drop_last().len() implies (#[trigger] w.drop_last()[i]).len() > 0 by {
            assert(w.drop_last()[i] == w[i]);
        }
        lemma_join_len(w.drop_last());
    } else if w.len() == 1 {
        assert(w[0].len() > 0);
    }
}


pub proof fn lemma_strip_parens_len(s: Seq<char>)
    ensures
        strip_parens(s).len() <= s.len(),
    decreases s.len(),
{
    lemma_trim_len(s);
    let t = trim(s);
    if wraps_whole(t) {
        lemma_strip_parens_len(t.subrange(1, t.len() - 1));
    }
}

pub proof fn lemma_not_operand_len(p: Seq<char>)
    ensures
        not_operand(p) matches Some(o) ==> o.len() < p.len(),
{
    reveal_strlit("not ");
    reveal_strlit("not(");
    if crate::text::has_prefix(p, "not "@) {
    } else if crate::text::has_prefix(p, "not("@) {
        let rest = p.skip(4);
        let body = if rest.len() > 0 && rest.last() == ')' { rest.drop_last() } else { rest };
        lemma_trim_len(body);
    }
}

/// A clause without wrapping parentheses and with its words single-spaced; the negation
/// of a clause that normalizes to `true` or `false` becomes the other constant.
pub open spec fn normalized_clause(p: Seq<char>) -> Seq<char>
    decreases p.len(),
{
    let q = strip_parens(p);
    match not_operand(q) {
        Some(n) => {
            proof {
                lemma_strip_parens_len(p);
                lemma_not_operand_len(q);
            }
            let inner = normalized_clause(n);
            if inner == "true"@ {
                "false"@
            } else if inner == "false"@ {
                "true"@
            } else {
                collapse_ws(q)
            }
        },
        None => collapse_ws(q),
    }
}

/// A clause without wrapping parentheses and with its words single-spaced.
pub fn normalized_predicate_clause(predicate: &str) -> (r: String)
    ensures
        r@ == normalized_clause(predicate@),
    decreases predicate@.len(),
{
    let q = strip_balanced_outer_parens(predicate);
    proof {
        lemma_strip_parens_len(predicate@);
        lemma_not_operand_len(q@);
    }
    match stripped_not_operand(q.as_str()) {
        Some(negated) => {
            let inner = normalized_predicate_clause(negated.as_str());
            if str_eq(inner.as_str(), "true") {
                string_of("false")
            } else if str_eq(inner.as_str(), "false") {
                string_of("true")
            } else {
                collapse_whitespace(q.as_str())
            }
        },
        None => collapse_whitespace(q.as_str()),
    }
}

/// The binding a reflexive comparison suggests: the predicate split at `operator` into
/// two paths, one starting at the candidate and the other at a plain name, with equal
/// rests, read in either direction.
pub open spec fn reflexive_operand_view(predicate: Seq<char>, candidate: Seq<char>, operator: Seq<char>) -> Option<Seq<char>> {
    match split_once_view(predicate, operator) {
        Some((l, r)) => match (operand_path_view(l), operand_path_view(r)) {
            (Some(lp), Some(rp)) => match path_binding(lp, rp, candidate) {
                Some(b) => Some(b),
                None => path_binding(rp, lp, candidate),
            },
            _ => None,
        },
        None => None,
    }
}

/// The binding a reflexive comparison suggests.
pub fn reflexive_operand(predicate: &str, candidate: &str, operator: &str) -> (r: Option<String>)
    ensures
        match r {
            Some(b) => reflexive_operand_view(predicate@, candidate@, operator@) == Some(b@),
            None => reflexive_operand_view(predicate@, candidate@, operator@) is None,
        },
{
    let (left, right) = match split_once(predicate, operator) {
        Some(parts) => parts,
        None => return None,
    };
    let left = match operand_path(left.as_str()) {
        Some(p) => p,
        None => return None,
    };
    let right = match operand_path(right.as_str()) {
        Some(p) => p,
        None => return None,
    };
    match reflexive_path_binding(&left, &right, candidate) {
        Some(b) => Some(b),
        None => reflexive_path_binding(&right, &left, candidate),
    }
}

} // verus!
