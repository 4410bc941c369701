//! Character-level text utilities shared by the renderers and the diff engine.
//!
//! Text is modelled by its character sequence (`String@` / `str@`).

use vstd::prelude::*;

verus! {

// ---------------------------------------------------------------------------
// Building strings
// ---------------------------------------------------------------------------

/// Appends one character to a string (`String::push`).
#[verifier::external_body]
pub(crate) fn push_char(s: &mut String, c: char)
    ensures
        final(s)@ == old(s)@.push(c),
{
    s.push(c);
}

/// Appends a string slice to a string.
pub fn push_str(s: &mut String, t: &str)
    ensures
        final(s)@ == old(s)@ + t@,
{
    s.append(t);
}

/// The characters of `s`, in order.
pub fn chars_of(s: &str) -> (v: Vec<char>)
    ensures
        v@ == s@,
{
    let mut v: Vec<char> = Vec::new();
    for c in it: s.chars()
        invariant
            v@ == it.seq().take(it.index() as int),
    {
        v.push(c);
    }
    v
}

/// Appends every character of `v` to `s`.
pub fn push_chars(s: &mut String, v: &Vec<char>)
    ensures
        final(s)@ == old(s)@ + v@,
{
    let n = v.len();
    for i in 0..n
        invariant
            n == v@.len(),
            s@ == old(s)@ + v@.take(i as int),
    {
        push_char(s, v[i]);
        assert(v@.take(i + 1) == v@.take(i as int).push(v@[i as int]));
    }
    assert(v@.take(n as int) == v@);
}

/// A string holding exactly the characters of `v`.
pub fn string_of(v: &Vec<char>) -> (s: String)
    ensures
        s@ == v@,
{
    let mut s = String::new();
    push_chars(&mut s, v);
    s
}

/// Copies a string slice into an owned string.
pub fn owned(t: &str) -> (s: String)
    ensures
        s@ == t@,
{
    String::from_str(t)
}

/// Concatenation of two string slices.
pub fn concat2(a: &str, b: &str) -> (s: String)
    ensures
        s@ == a@ + b@,
{
    let mut s = String::from_str(a);
    s.append(b);
    s
}

/// Concatenation of three string slices.
pub fn concat3(a: &str, b: &str, c: &str) -> (s: String)
    ensures
        s@ == a@ + b@ + c@,
{
    let mut s = String::from_str(a);
    s.append(b);
    s.append(c);
    s
}

// ---------------------------------------------------------------------------
// Comparing strings
// ---------------------------------------------------------------------------

/// Equality of two string slices by content.
pub fn str_eq(a: &str, b: &str) -> (r: bool)
    ensures
        r == (a@ == b@),
{
    let va = chars_of(a);
    let vb = chars_of(b);
    seq_chars_eq(&va, &vb)
}

/// Equality of two character vectors.
pub fn seq_chars_eq(a: &Vec<char>, b: &Vec<char>) -> (r: bool)
    ensures
        r == (a@ == b@),
{
    if a.len() != b.len() {
        return false;
    }
    let n = a.len();
    for i in 0..n
        invariant
            n == a@.len(),
            n == b@.len(),
            forall|j: int| 0 <= j < i ==> a@[j] == b@[j],
    {
        if a[i] != b[i] {
            return false;
        }
    }
    assert(a@ =~= b@);
    true
}

/// Strict lexicographic order on character sequences (code-point order; for
/// UTF-8 text this is the same order as byte-wise comparison).
pub open spec fn seq_lt(a: Seq<char>, b: Seq<char>) -> bool
    decreases a.len(),
{
    if b.len() == 0 {
        false
    } else if a.len() == 0 {
        true
    } else if a[0] != b[0] {
        (a[0] as int) < (b[0] as int)
    } else {
        seq_lt(a.drop_first(), b.drop_first())
    }
}

/// Non-strict lexicographic order.
pub open spec fn seq_le(a: Seq<char>, b: Seq<char>) -> bool {
    !seq_lt(b, a)
}

/// `a < b` in lexicographic order.
pub fn str_lt(a: &str, b: &str) -> (r: bool)
    ensures
        r == seq_lt(a@, b@),
{
    let va = chars_of(a);
    let vb = chars_of(b);
    vec_lt(&va, &vb)
}

/// `a < b` in lexicographic order, on character vectors.
pub fn vec_lt(a: &Vec<char>, b: &Vec<char>) -> (r: bool)
    ensures
        r == seq_lt(a@, b@),
{
    let mut i: usize = 0;
    assert(a@.skip(0) == a@);
    assert(b@.skip(0) == b@);
    while i < a.len() && i < b.len()
        invariant
            i <= a@.len(),
            i <= b@.len(),
            a@.take(i as int) == b@.take(i as int),
            seq_lt(a@, b@) == seq_lt(a@.skip(i as int), b@.skip(i as int)),
        decreases a@.len() - i,
    {
        if a[i] != b[i] {
            assert(a@.skip(i as int)[0] == a@[i as int]);
            assert(b@.skip(i as int)[0] == b@[i as int]);
            return a[i] < b[i];
        }
        assert(a@.skip(i as int).drop_first() == a@.skip(i + 1));
        assert(b@.skip(i as int).drop_first() == b@.skip(i + 1));
        assert(a@.take(i + 1) == a@.take(i as int).push(a@[i as int]));
        assert(b@.take(i + 1) == b@.take(i as int).push(b@[i as int]));
        i = i + 1;
    }
    i < b.len()
}

/// Lexicographic order is total: of two sequences one is below or equal to the other.
pub proof fn lemma_seq_lt_total(a: Seq<char>, b: Seq<char>)
    ensures
        seq_lt(a, b) || seq_lt(b, a) || a == b,
    decreases a.len(),
{
    if a.len() == 0 || b.len() == 0 {
        if a.len() == 0 && b.len() == 0 {
            assert(a =~= b);
        }
    } else if a[0] != b[0] {
        assert((a[0] as int) != (b[0] as int));
    } else {
        lemma_seq_lt_total(a.drop_first(), b.drop_first());
        if a.drop_first() == b.drop_first() {
            assert(a =~= seq![a[0]] + a.drop_first());
            assert(b =~= seq![b[0]] + b.drop_first());
        }
    }
}

/// Lexicographic order is transitive.
pub proof fn lemma_seq_lt_transitive(a: Seq<char>, b: Seq<char>, c: Seq<char>)
    requires
        seq_lt(a, b),
        seq_lt(b, c),
    ensures
        seq_lt(a, c),
    decreases a.len(),
{
    if a.len() > 0 && a[0] == b[0] && b[0] == c[0] {
        lemma_seq_lt_transitive(a.drop_first(), b.drop_first(), c.drop_first());
    }
}

/// Lexicographic order is irreflexive.
pub proof fn lemma_seq_lt_irreflexive(a: Seq<char>)
    ensures
        !seq_lt(a, a),
    decreases a.len(),
{
    if a.len() > 0 {
        lemma_seq_lt_irreflexive(a.drop_first());
    }
}

/// `seq_le` is transitive.
pub proof fn lemma_seq_le_transitive(a: Seq<char>, b: Seq<char>, c: Seq<char>)
    requires
        seq_le(a, b),
        seq_le(b, c),
    ensures
        seq_le(a, c),
{
    if seq_lt(c, a) {
        lemma_seq_lt_total(a, b);
        if seq_lt(a, b) {
            lemma_seq_lt_transitive(c, a, b);
        }
    }
}

/// Of two sequences, one is `seq_le` the other.
pub proof fn lemma_seq_le_total(a: Seq<char>, b: Seq<char>)
    ensures
        seq_le(a, b) || seq_le(b, a),
{
    if seq_lt(a, b) && seq_lt(b, a) {
        lemma_seq_lt_transitive(a, b, a);
        lemma_seq_lt_irreflexive(a);
    }
}

/// `seq_le` is reflexive.
pub proof fn lemma_seq_le_reflexive(a: Seq<char>)
    ensures
        seq_le(a, a),
{
    lemma_seq_lt_irreflexive(a);
}

// ---------------------------------------------------------------------------
// Decimal rendering
// ---------------------------------------------------------------------------

/// The ASCII digit for `d` (0..=9).
pub open spec fn digit_char(d: nat) -> char {
    if d == 0 {
        '0'
    } else if d == 1 {
        '1'
    } else if d == 2 {
        '2'
    } else if d == 3 {
        '3'
    } else if d == 4 {
        '4'
    } else if d == 5 {
        '5'
    } else if d == 6 {
        '6'
    } else if d == 7 {
        '7'
    } else if d == 8 {
        '8'
    } else {
        '9'
    }
}

/// Decimal notation of a natural number, without leading zeros.
pub open spec fn dec_text(n: nat) -> Seq<char>
    decreases n,
{
    if n < 10 {
        seq![digit_char(n)]
    } else {
        dec_text(n / 10).push(digit_char(n % 10))
    }
}

/// Decimal notation of an integer: a `-` before the digits of a negative number.
pub open spec fn int_text(i: int) -> Seq<char> {
    if i < 0 {
        seq!['-'] + dec_text((-i) as nat)
    } else {
        dec_text(i as nat)
    }
}

/// Decimal notation is never empty and starts with a digit.
pub proof fn lemma_dec_text_shape(n: nat)
    ensures
        dec_text(n).len() >= 1,
        n >= 10 ==> dec_text(n).len() >= 2,
        dec_text(n)[0] != '-',
    decreases n,
{
    if n >= 10 {
        lemma_dec_text_shape(n / 10);
    }
}

/// Two numbers with the same decimal notation are equal.
pub proof fn lemma_dec_text_injective(m: nat, n: nat)
    requires
        dec_text(m) == dec_text(n),
    ensures
        m == n,
    decreases m,
{
    lemma_dec_text_shape(m);
    lemma_dec_text_shape(n);
    if m >= 10 && n >= 10 {
        let dm = dec_text(m);
        assert(dm.drop_last() == dec_text(m / 10));
        assert(dm.drop_last() == dec_text(n / 10));
        assert(dm.last() == digit_char(m % 10));
        assert(dm.last() == digit_char(n % 10));
        lemma_dec_text_injective(m / 10, n / 10);
        assert(m % 10 == n % 10);
    } else if m < 10 && n < 10 {
        assert(dec_text(m)[0] == digit_char(m));
        assert(dec_text(n)[0] == digit_char(n));
    }
}

/// Two integers with the same decimal notation are equal.
pub proof fn lemma_int_text_injective(i: int, j: int)
    requires
        int_text(i) == int_text(j),
    ensures
        i == j,
{
    if i < 0 {
        lemma_dec_text_shape(j as nat);
        assert(int_text(i)[0] == '-');
        if j < 0 {
            assert(int_text(i).drop_first() == dec_text((-i) as nat));
            assert(int_text(j).drop_first() == dec_text((-j) as nat));
            lemma_dec_text_injective((-i) as nat, (-j) as nat);
        }
    } else if j < 0 {
        lemma_dec_text_shape(i as nat);
        assert(int_text(j)[0] == '-');
    } else {
        lemma_dec_text_injective(i as nat, j as nat);
    }
}

fn digit_of(d: u128) -> (c: char)
    requires
        d < 10,
    ensures
        c == digit_char(d as nat),
{
    if d == 0 {
        '0'
    } else if d == 1 {
        '1'
    } else if d == 2 {
        '2'
    } else if d == 3 {
        '3'
    } else if d == 4 {
        '4'
    } else if d == 5 {
        '5'
    } else if d == 6 {
        '6'
    } else if d == 7 {
        '7'
    } else if d == 8 {
        '8'
    } else {
        '9'
    }
}

/// Appends the decimal notation of `n`.
pub fn push_u128(s: &mut String, n: u128)
    ensures
        final(s)@ == old(s)@ + dec_text(n as nat),
    decreases n,
{
    if n < 10 {
        push_char(s, digit_of(n));
        assert(dec_text(n as nat) == seq![digit_char(n as nat)]);
        assert(old(s)@.push(digit_char(n as nat)) == old(s)@ + seq![digit_char(n as nat)]);
    } else {
        push_u128(s, n / 10);
        push_char(s, digit_of(n % 10));
        assert(old(s)@ + dec_text((n / 10) as nat) + seq![digit_char((n % 10) as nat)] == old(s)@
            + dec_text(n as nat));
    }
}

/// Decimal notation of an unsigned number (`to_string`).
pub fn u128_text(n: u128) -> (s: String)
    ensures
        s@ == dec_text(n as nat),
{
    let mut s = String::new();
    push_u128(&mut s, n);
    s
}

/// Decimal notation of a `u64` (`to_string`).
pub fn u64_text(n: u64) -> (s: String)
    ensures
        s@ == dec_text(n as nat),
{
    u128_text(n as u128)
}

/// Decimal notation of a `usize` (`to_string`).
pub fn usize_text(n: usize) -> (s: String)
    ensures
        s@ == dec_text(n as nat),
{
    u128_text(n as u128)
}

/// Decimal notation of a `u8` (`to_string`).
pub fn u8_text(n: u8) -> (s: String)
    ensures
        s@ == dec_text(n as nat),
{
    u128_text(n as u128)
}

/// Decimal notation of an `i32` (`to_string`).
pub fn i32_text(i: i32) -> (s: String)
    ensures
        s@ == int_text(i as int),
{
    if i < 0 {
        let mut s = String::new();
        push_char(&mut s, '-');
        let m: i64 = -(i as i64);
        push_u128(&mut s, m as u128);
        assert(seq!['-'] + dec_text((-(i as int)) as nat) == seq!['-'].add(
            dec_text((-(i as int)) as nat),
        ));
        s
    } else {
        u128_text(i as u128)
    }
}

// ---------------------------------------------------------------------------
// Lines
// ---------------------------------------------------------------------------

/// Index of the first `'\n'` in `s`, if any.
pub open spec fn first_newline(s: Seq<char>) -> Option<int>
    decreases s.len(),
{
    if s.len() == 0 {
        None
    } else if s[0] == '\n' {
        Some(0)
    } else {
        match first_newline(s.drop_first()) {
            Some(i) => Some(i + 1),
            None => None,
        }
    }
}

/// A line without its terminator: a trailing `'\r'` before the `'\n'` is dropped too.
pub open spec fn strip_cr(l: Seq<char>) -> Seq<char> {
    if l.len() > 0 && l.last() == '\r' {
        l.drop_last()
    } else {
        l
    }
}

/// The lines of `s` as `str::lines` yields them: split after each `'\n'`, the
/// terminator (`"\n"` or `"\r\n"`) removed, and no empty final line after a
/// trailing newline.
pub open spec fn lines_of(s: Seq<char>) -> Seq<Seq<char>>
    decreases s.len(),
{
    if s.len() == 0 {
        Seq::empty()
    } else {
        match first_newline(s) {
            None => seq![s],
            Some(i) => {
                if 0 <= i < s.len() {
                    seq![strip_cr(s.take(i))] + lines_of(s.skip(i + 1))
                } else {
                    Seq::empty()
                }
            },
        }
    }
}

proof fn lemma_first_newline_bounds(s: Seq<char>)
    ensures
        match first_newline(s) {
            Some(i) => 0 <= i < s.len() && s[i] == '\n' && forall|j: int|
                0 <= j < i ==> s[j] != '\n',
            None => forall|j: int| 0 <= j < s.len() ==> s[j] != '\n',
        },
    decreases s.len(),
{
    if s.len() > 0 && s[0] != '\n' {
        lemma_first_newline_bounds(s.drop_first());
        match first_newline(s.drop_first()) {
            Some(i) => {
                assert forall|j: int| 0 <= j < i + 1 implies s[j] != '\n' by {
                    if j > 0 {
                        assert(s[j] == s.drop_first()[j - 1]);
                    }
                }
            },
            None => {
                assert forall|j: int| 0 <= j < s.len() implies s[j] != '\n' by {
                    if j > 0 {
                        assert(s[j] == s.drop_first()[j - 1]);
                    }
                }
            },
        }
    }
}

proof fn lemma_first_newline_is(s: Seq<char>, i: int)
    requires
        0 <= i < s.len(),
        s[i] == '\n',
        forall|j: int| 0 <= j < i ==> s[j] != '\n',
    ensures
        first_newline(s) == Some(i),
    decreases s.len(),
{
    if i > 0 {
        lemma_first_newline_is(s.drop_first(), i - 1);
    }
}

proof fn lemma_first_newline_none(s: Seq<char>)
    requires
        forall|j: int| 0 <= j < s.len() ==> s[j] != '\n',
    ensures
        first_newline(s) is None,
    decreases s.len(),
{
    if s.len() > 0 {
        lemma_first_newline_none(s.drop_first());
    }
}

/// Ending a text that does not already end a line (with `'\n'` or `'\r'`) with
/// a newline leaves its lines as they are.
pub proof fn lemma_lines_of_final_newline(s: Seq<char>)
    requires
        s.len() > 0,
        s.last() != '\n',
        s.last() != '\r',
    ensures
        lines_of(s.push('\n')) == lines_of(s),
    decreases s.len(),
{
    let t = s.push('\n');
    let n = s.len() as int;
    lemma_first_newline_bounds(s);
    match first_newline(s) {
        None => {
            assert forall|j: int| 0 <= j < n implies t[j] != '\n' by {
                assert(t[j] == s[j]);
            }
            lemma_first_newline_is(t, n);
            assert(t.take(n) =~= s);
            assert(t.skip(n + 1) =~= Seq::<char>::empty());
            assert(lines_of(t.skip(n + 1)) == Seq::<Seq<char>>::empty());
            assert(strip_cr(s) == s);
            assert(lines_of(t) == seq![strip_cr(t.take(n))] + lines_of(t.skip(n + 1)));
            assert(lines_of(s) == seq![s]);
            assert(lines_of(t) =~= lines_of(s));
        },
        Some(i) => {
            assert(i < n - 1);
            assert forall|j: int| 0 <= j < i implies t[j] != '\n' by {
                assert(t[j] == s[j]);
            }
            assert(t[i] == s[i]);
            lemma_first_newline_is(t, i);
            let rest = s.skip(i + 1);
            assert(t.take(i) =~= s.take(i));
            assert(t.skip(i + 1) =~= rest.push('\n'));
            assert(rest.last() == s.last());
            lemma_lines_of_final_newline(rest);
        },
    }
}

/// The text of a block: every line of `value` preceded by `prefix` and ended by `'\n'`.
pub open spec fn prefixed_lines(ls: Seq<Seq<char>>, prefix: Seq<char>) -> Seq<char>
    decreases ls.len(),
{
    if ls.len() == 0 {
        Seq::empty()
    } else {
        prefix + ls[0] + seq!['\n'] + prefixed_lines(ls.drop_first(), prefix)
    }
}

/// What a block renderer appends for `value` under `prefix`: `<empty>` for an
/// empty value; otherwise each line, then a `<no trailing newline>` marker when
/// `value` does not end with `'\n'`.
pub open spec fn block_text(value: Seq<char>, prefix: Seq<char>) -> Seq<char> {
    if value.len() == 0 {
        prefix + "<empty>\n"@
    } else if value.last() == '\n' {
        prefixed_lines(lines_of(value), prefix)
    } else {
        prefixed_lines(lines_of(value), prefix) + prefix + "<no trailing newline>\n"@
    }
}

/// Appends `prefixed_lines(lines_of(value), prefix)`.
pub fn push_prefixed_lines(s: &mut String, value: &Vec<char>, prefix: &str)
    ensures
        final(s)@ == old(s)@ + prefixed_lines(lines_of(value@), prefix@),
{
    let n = value.len();
    let mut start: usize = 0;
    let mut line: Vec<char> = Vec::new();
    let mut i: usize = 0;
    assert(value@.skip(0) == value@);
    // `start..i` is the current (unterminated) line.
    while i < n
        invariant
            n == value@.len(),
            start <= i <= n,
            line@ == value@.subrange(start as int, i as int),
            forall|j: int| start <= j < i ==> value@[j] != '\n',
            s@ + prefixed_lines(lines_of(value@.skip(start as int)), prefix@) == old(s)@
                + prefixed_lines(lines_of(value@), prefix@),
        decreases n - i,
    {
        if value[i] == '\n' {
            let ghost rest = value@.skip(start as int);
            proof {
                assert(rest[i - start] == '\n');
                assert forall|j: int| 0 <= j < i - start implies rest[j] != '\n' by {
                    assert(rest[j] == value@[start + j]);
                }
                lemma_first_newline_is(rest, i - start);
                assert(rest.take(i - start) == line@);
                assert(rest.skip(i - start + 1) == value@.skip(i + 1));
            }
            let mut stripped = line.clone();
            if stripped.len() > 0 && stripped[stripped.len() - 1] == '\r' {
                stripped.pop();
            }
            assert(stripped@ == strip_cr(line@));
            let ghost before = s@;
            push_str(s, prefix);
            push_chars(s, &stripped);
            push_char(s, '\n');
            assert(s@ == before + (prefix@ + strip_cr(line@) + seq!['\n']));
            assert(lines_of(rest) == seq![strip_cr(line@)] + lines_of(value@.skip(i + 1)));
            assert((seq![strip_cr(line@)] + lines_of(value@.skip(i + 1))).drop_first()
                == lines_of(value@.skip(i + 1)));
            start = i + 1;
            line = Vec::new();
            i = i + 1;
            assert(line@ == value@.subrange(start as int, i as int));
        } else {
            line.push(value[i]);
            i = i + 1;
            assert(line@ == value@.subrange(start as int, i as int));
        }
    }
    if start < n {
        let ghost rest = value@.skip(start as int);
        proof {
            assert forall|j: int| 0 <= j < rest.len() implies rest[j] != '\n' by {
                assert(rest[j] == value@[start + j]);
            }
            lemma_first_newline_none(rest);
            assert(rest == line@);
            assert(lines_of(rest) == seq![line@]);
            assert(seq![line@].drop_first() == Seq::<Seq<char>>::empty());
        }
        let ghost before = s@;
        push_str(s, prefix);
        push_chars(s, &line);
        push_char(s, '\n');
        assert(s@ == before + (prefix@ + line@ + seq!['\n']));
        assert(prefixed_lines(lines_of(rest), prefix@) == prefix@ + line@ + seq!['\n']
            + prefixed_lines(Seq::<Seq<char>>::empty(), prefix@));
        assert(s@ == before + prefixed_lines(lines_of(rest), prefix@));
    } else {
        assert(value@.skip(start as int) =~= Seq::<char>::empty());
        assert(lines_of(value@.skip(start as int)) =~= Seq::<Seq<char>>::empty());
        assert(s@ + Seq::<char>::empty() == s@);
    }
}

/// Appends `block_text(value, prefix)`.
pub fn push_block_text(s: &mut String, value: &str, prefix: &str)
    ensures
        final(s)@ == old(s)@ + block_text(value@, prefix@),
{
    let v = chars_of(value);
    if v.len() == 0 {
        push_str(s, prefix);
        push_str(s, "<empty>\n");
        return;
    }
    push_prefixed_lines(s, &v, prefix);
    if v[v.len() - 1] != '\n' {
        push_str(s, prefix);
        push_str(s, "<no trailing newline>\n");
    }
}

// ---------------------------------------------------------------------------
// Joining
// ---------------------------------------------------------------------------

/// The items joined with `sep` between consecutive items.
pub open spec fn join_seq(items: Seq<Seq<char>>, sep: Seq<char>) -> Seq<char>
    decreases items.len(),
{
    if items.len() == 0 {
        Seq::empty()
    } else if items.len() == 1 {
        items[0]
    } else {
        join_seq(items.drop_last(), sep) + sep + items.last()
    }
}

/// The views of a vector of strings.
pub open spec fn views(v: Seq<String>) -> Seq<Seq<char>> {
    v.map_values(|s: String| s@)
}

/// Joins the strings of `items` with `sep` (`[..].join(sep)`).
pub fn join_strings(items: &Vec<String>, sep: &str) -> (r: String)
    ensures
        r@ == join_seq(views(items@), sep@),
{
    let mut r = String::new();
    let n = items.len();
    for i in 0..n
        invariant
            n == items@.len(),
            r@ == join_seq(views(items@).take(i as int), sep@),
    {
        let ghost vs = views(items@);
        assert(vs.take(i + 1).drop_last() == vs.take(i as int));
        if i > 0 {
            push_str(&mut r, sep);
        }
        push_str(&mut r, items[i].as_str());
        if i == 0 {
            assert(vs.take(1).len() == 1);
            assert(r@ == vs.take(1)[0]);
        }
    }
    assert(views(items@).take(n as int) == views(items@));
    r
}

// ---------------------------------------------------------------------------
// Replacing
// ---------------------------------------------------------------------------

/// `s` with every non-overlapping occurrence of `from`, scanned left to right,
/// replaced by `to` (`str::replace` with a non-empty pattern).
pub open spec fn replace_all(s: Seq<char>, from: Seq<char>, to: Seq<char>) -> Seq<char>
    recommends
        from.len() > 0,
    decreases s.len(),
{
    if s.len() == 0 || from.len() == 0 {
        s
    } else if s.len() >= from.len() && s.take(from.len() as int) == from {
        to + replace_all(s.skip(from.len() as int), from, to)
    } else {
        seq![s[0]] + replace_all(s.drop_first(), from, to)
    }
}

/// Whether `v[at..]` starts with `pat`.
fn starts_at(v: &Vec<char>, at: usize, pat: &Vec<char>) -> (r: bool)
    requires
        at <= v@.len(),
    ensures
        r == (v@.len() - at >= pat@.len() && v@.skip(at as int).take(pat@.len() as int) == pat@),
{
    if v.len() - at < pat.len() {
        return false;
    }
    let m = pat.len();
    for j in 0..m
        invariant
            m == pat@.len(),
            at + m <= v@.len(),
            forall|k: int| 0 <= k < j ==> v@[at + k] == pat@[k],
    {
        assert(at + j < v.len());
        if v[at + j] != pat[j] {
            assert(v@.skip(at as int).take(m as int)[j as int] == v@[at + j]);
            return false;
        }
    }
    assert(v@.skip(at as int).take(m as int) =~= pat@);
    true
}

/// `s` with every occurrence of `from` replaced by `to` (`str::replace`).
pub fn replace_text(s: &str, from: &str, to: &str) -> (r: String)
    requires
        from@.len() > 0,
    ensures
        r@ == replace_all(s@, from@, to@),
{
    let v = chars_of(s);
    let pat = chars_of(from);
    let mut r = String::new();
    let mut i: usize = 0;
    assert(v@.skip(0) == v@);
    assert(r@ + replace_all(s@, from@, to@) == replace_all(s@, from@, to@));
    while i < v.len()
        invariant
            pat@ == from@,
            pat@.len() > 0,
            v@ == s@,
            i <= v@.len(),
            r@ + replace_all(v@.skip(i as int), from@, to@) == replace_all(s@, from@, to@),
        decreases v@.len() - i,
    {
        let ghost rest = v@.skip(i as int);
        if starts_at(&v, i, &pat) {
            let ghost before = r@;
            push_str(&mut r, to);
            assert(rest.skip(pat@.len() as int) == v@.skip(i + pat@.len()));
            assert(replace_all(rest, from@, to@) == to@ + replace_all(
                rest.skip(from@.len() as int),
                from@,
                to@,
            ));
            assert(before + (to@ + replace_all(v@.skip(i + pat@.len()), from@, to@)) == r@
                + replace_all(v@.skip(i + pat@.len()), from@, to@));
            i = i + pat.len();
        } else {
            let ghost before = r@;
            push_char(&mut r, v[i]);
            assert(rest.drop_first() == v@.skip(i + 1));
            assert(rest[0] == v@[i as int]);
            assert(before + (seq![rest[0]] + replace_all(rest.drop_first(), from@, to@)) == r@
                + replace_all(v@.skip(i + 1), from@, to@));
            i = i + 1;
        }
    }
    assert(v@.skip(i as int).len() == 0);
    r
}

// ---------------------------------------------------------------------------
// Concatenation of rendered parts
// ---------------------------------------------------------------------------

/// The parts concatenated in order.
pub open spec fn flatten(parts: Seq<Seq<char>>) -> Seq<char>
    decreases parts.len(),
{
    if parts.len() == 0 {
        Seq::empty()
    } else {
        flatten(parts.drop_last()) + parts.last()
    }
}

/// Extending the parts by one appends that part.
pub proof fn lemma_flatten_take(parts: Seq<Seq<char>>, i: int)
    requires
        0 <= i < parts.len(),
    ensures
        flatten(parts.take(i + 1)) == flatten(parts.take(i)) + parts[i],
{
    assert(parts.take(i + 1).drop_last() == parts.take(i));
    assert(parts.take(i + 1).last() == parts[i]);
}

/// Left-aligns `s` in a field of `width` characters (`{:<width}`).
pub open spec fn pad_right(s: Seq<char>, width: nat) -> Seq<char> {
    if s.len() >= width {
        s
    } else {
        s + Seq::new((width - s.len()) as nat, |i: int| ' ')
    }
}

/// Appends `t` left-aligned in a field of `width` characters.
pub fn push_padded(s: &mut String, t: &str, width: usize)
    ensures
        final(s)@ == old(s)@ + pad_right(t@, width as nat),
{
    let v = chars_of(t);
    push_chars(s, &v);
    let ghost mid = s@;
    if v.len() < width {
        let k = width - v.len();
        for i in 0..k
            invariant
                s@ == mid + Seq::new(i as nat, |j: int| ' '),
        {
            push_char(s, ' ');
            assert(s@ =~= mid + Seq::new((i + 1) as nat, |j: int| ' '));
        }
    }
}

/// Unicode `White_Space` (what `char::is_whitespace` tests).
pub open spec fn is_ws(c: char) -> bool {
    c == '\t' || c == '\n' || c == '\x0b' || c == '\x0c' || c == '\r' || c == ' '
        || c == '\u{85}' || c == '\u{a0}' || c == '\u{1680}' || ('\u{2000}' <= c
        && c <= '\u{200a}') || c == '\u{2028}' || c == '\u{2029}' || c == '\u{202f}'
        || c == '\u{205f}' || c == '\u{3000}'
}

/// Whether `c` is Unicode white space (`char::is_whitespace`).
pub fn is_whitespace(c: char) -> (r: bool)
    ensures
        r == is_ws(c),
{
    c == '\t' || c == '\n' || c == '\x0b' || c == '\x0c' || c == '\r' || c == ' '
        || c == '\u{85}' || c == '\u{a0}' || c == '\u{1680}' || ('\u{2000}' <= c
        && c <= '\u{200a}') || c == '\u{2028}' || c == '\u{2029}' || c == '\u{202f}'
        || c == '\u{205f}' || c == '\u{3000}'
}

/// The views of character vectors.
pub open spec fn char_vecs(v: Seq<Vec<char>>) -> Seq<Seq<char>> {
    v.map_values(|l: Vec<char>| l@)
}

/// The lines of `value` as `str::lines` yields them.
pub fn split_lines(value: &Vec<char>) -> (r: Vec<Vec<char>>)
    ensures
        char_vecs(r@) == lines_of(value@),
{
    let n = value.len();
    let mut start: usize = 0;
    let mut line: Vec<char> = Vec::new();
    let mut out: Vec<Vec<char>> = Vec::new();
    let mut i: usize = 0;
    assert(value@.skip(0) == value@);
    assert(char_vecs(out@) + lines_of(value@.skip(0)) =~= lines_of(value@));
    while i < n
        invariant
            n == value@.len(),
            start <= i <= n,
            line@ == value@.subrange(start as int, i as int),
            forall|j: int| start <= j < i ==> value@[j] != '\n',
            char_vecs(out@) + lines_of(value@.skip(start as int)) == lines_of(value@),
        decreases n - i,
    {
        if value[i] == '\n' {
            let ghost rest = value@.skip(start as int);
            proof {
                assert(rest[i - start] == '\n');
                assert forall|j: int| 0 <= j < i - start implies rest[j] != '\n' by {
                    assert(rest[j] == value@[start + j]);
                }
                lemma_first_newline_is(rest, i - start);
                assert(rest.take(i - start) == line@);
                assert(rest.skip(i - start + 1) == value@.skip(i + 1));
            }
            let mut stripped = line;
            if stripped.len() > 0 && stripped[stripped.len() - 1] == '\r' {
                stripped.pop();
            }
            assert(stripped@ == strip_cr(value@.subrange(start as int, i as int)));
            let ghost before = char_vecs(out@);
            out.push(stripped);
            assert(char_vecs(out@) =~= before.push(strip_cr(value@.subrange(start as int, i as int))));
            assert(lines_of(rest) == seq![strip_cr(value@.subrange(start as int, i as int))] + lines_of(
                value@.skip(i + 1),
            ));
            assert(char_vecs(out@) + lines_of(value@.skip(i + 1)) =~= before + lines_of(rest));
            start = i + 1;
            line = Vec::new();
            i = i + 1;
            assert(line@ =~= value@.subrange(start as int, i as int));
        } else {
            line.push(value[i]);
            i = i + 1;
            assert(line@ =~= value@.subrange(start as int, i as int));
        }
    }
    if start < n {
        let ghost rest = value@.skip(start as int);
        proof {
            assert forall|j: int| 0 <= j < rest.len() implies rest[j] != '\n' by {
                assert(rest[j] == value@[start + j]);
            }
            lemma_first_newline_none(rest);
            assert(rest =~= line@);
            assert(lines_of(rest) == seq![line@]);
        }
        let ghost before = char_vecs(out@);
        out.push(line);
        assert(char_vecs(out@) =~= before.push(rest));
        assert(char_vecs(out@) =~= before + lines_of(rest));
    } else {
        assert(value@.skip(start as int) =~= Seq::<char>::empty());
        assert(lines_of(value@.skip(start as int)) =~= Seq::<Seq<char>>::empty());
        assert(char_vecs(out@) + Seq::<Seq<char>>::empty() =~= char_vecs(out@));
    }
    out
}

/// `l` without its leading white space (`str::trim_start`).
pub open spec fn trim_start(l: Seq<char>) -> Seq<char>
    decreases l.len(),
{
    if l.len() > 0 && is_ws(l[0]) {
        trim_start(l.drop_first())
    } else {
        l
    }
}

/// Where `v` continues after the white space that starts at `from`.
pub fn skip_ws(v: &Vec<char>, from: usize) -> (k: usize)
    requires
        from <= v@.len(),
    ensures
        from <= k <= v@.len(),
        v@.skip(k as int) == trim_start(v@.skip(from as int)),
{
    let mut k = from;
    while k < v.len() && is_whitespace(v[k])
        invariant
            from <= k <= v@.len(),
            trim_start(v@.skip(k as int)) == trim_start(v@.skip(from as int)),
        decreases v@.len() - k,
    {
        assert(v@.skip(k as int)[0] == v@[k as int]);
        assert(v@.skip(k as int).drop_first() == v@.skip(k + 1));
        k = k + 1;
    }
    if k < v.len() {
        assert(v@.skip(k as int)[0] == v@[k as int]);
    }
    k
}

/// Whether `v` continues with `p` at position `k`.
pub fn has_prefix_at(v: &Vec<char>, k: usize, p: &str) -> (r: bool)
    requires
        k <= v@.len(),
    ensures
        r == p@.is_prefix_of(v@.skip(k as int)),
{
    let pc = chars_of(p);
    if pc.len() > v.len() - k {
        return false;
    }
    let n = pc.len();
    for i in 0..n
        invariant
            n == pc@.len(),
            pc@ == p@,
            k + n <= v.len(),
            forall|j: int| 0 <= j < i ==> pc@[j] == v@[k + j],
    {
        if pc[i] != v[k + i] {
            assert(v@.skip(k as int)[i as int] == v@[k + i]);
            return false;
        }
    }
    assert(p@ =~= v@.skip(k as int).take(n as int));
    true
}

/// The characters of `v` from `a` up to `b`.
pub fn slice_chars(v: &Vec<char>, a: usize, b: usize) -> (r: Vec<char>)
    requires
        a <= b <= v@.len(),
    ensures
        r@ == v@.subrange(a as int, b as int),
{
    let mut r: Vec<char> = Vec::new();
    for i in a..b
        invariant
            a <= b <= v@.len(),
            r@ == v@.subrange(a as int, i as int),
    {
        r.push(v[i]);
        assert(r@ =~= v@.subrange(a as int, i + 1));
    }
    r
}

/// `l` without its trailing white space (`str::trim_end`).
pub open spec fn trim_end(l: Seq<char>) -> Seq<char>
    decreases l.len(),
{
    if l.len() > 0 && is_ws(l.last()) {
        trim_end(l.drop_last())
    } else {
        l
    }
}

/// `l` without leading and trailing white space (`str::trim`).
pub open spec fn trim(l: Seq<char>) -> Seq<char> {
    trim_end(trim_start(l))
}

/// `s` without leading and trailing white space.
pub fn trimmed(s: &str) -> (r: String)
    ensures
        r@ == trim(s@),
{
    let v = chars_of(s);
    assert(v@.skip(0) == v@);
    let a = skip_ws(&v, 0);
    let mut b = v.len();
    assert(v@.subrange(a as int, b as int) == v@.skip(a as int));
    while b > a && is_whitespace(v[b - 1])
        invariant
            a <= b <= v@.len(),
            trim_end(v@.subrange(a as int, b as int)) == trim_end(v@.skip(a as int)),
        decreases b,
    {
        assert(v@.subrange(a as int, b as int).last() == v@[b - 1]);
        assert(v@.subrange(a as int, b as int).drop_last() == v@.subrange(a as int, b - 1));
        b = b - 1;
    }
    if b > a {
        assert(v@.subrange(a as int, b as int).last() == v@[b - 1]);
    }
    assert(trim_end(v@.subrange(a as int, b as int)) == v@.subrange(a as int, b as int));
    let out = slice_chars(&v, a, b);
    string_of(&out)
}

} // verus!
