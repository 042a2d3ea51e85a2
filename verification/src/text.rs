//! The textual building blocks of the language: character classes, decimal
//! literals, whitespace trimming and splitting a line at a separator
//! character. The spec functions here are the reference model of the grammar;
//! the executable functions are proved against them.

use vstd::prelude::*;
use vstd::string::StrSliceExecFns;

verus! {

/// The whitespace characters that trimming removes.
pub open spec fn is_space(c: char) -> bool {
    c == ' ' || c == '\t' || c == '\n' || c == '\r'
}

/// A decimal digit.
pub open spec fn is_digit(c: char) -> bool {
    '0' <= c && c <= '9'
}

/// A lowercase ASCII letter.
pub open spec fn is_lower(c: char) -> bool {
    'a' <= c && c <= 'z'
}

/// The numeric value of one decimal digit.
pub open spec fn digit_val(c: char) -> int {
    c as int - '0' as int
}

/// Every character of `s` is a decimal digit.
pub open spec fn all_digits(s: Seq<char>) -> bool {
    forall|i: int| 0 <= i < s.len() ==> is_digit(s[i])
}

/// The value of a digit string read in base 10.
pub open spec fn digits_val(s: Seq<char>) -> int
    decreases s.len(),
{
    if s.len() == 0 {
        0
    } else {
        10 * digits_val(s.drop_last()) + digit_val(s.last())
    }
}

/// A literal token: one or more digits (leading zeros allowed, no sign)
/// whose value fits in 32 bits.
pub open spec fn is_literal(s: Seq<char>) -> bool {
    s.len() > 0 && all_digits(s) && digits_val(s) <= u32::MAX
}

/// A symbol token: exactly one lowercase ASCII letter.
pub open spec fn is_symbol_seq(s: Seq<char>) -> bool {
    s.len() == 1 && is_lower(s[0])
}

/// A single operand: a literal or a symbol.
pub open spec fn is_val_token(s: Seq<char>) -> bool {
    is_literal(s) || is_symbol_seq(s)
}

/// `s` without its leading whitespace.
pub open spec fn trim_front(s: Seq<char>) -> Seq<char>
    decreases s.len(),
{
    if s.len() > 0 && is_space(s[0]) {
        trim_front(s.drop_first())
    } else {
        s
    }
}

/// `s` without its trailing whitespace.
pub open spec fn trim_back(s: Seq<char>) -> Seq<char>
    decreases s.len(),
{
    if s.len() > 0 && is_space(s.last()) {
        trim_back(s.drop_last())
    } else {
        s
    }
}

/// `s` without leading and trailing whitespace.
pub open spec fn trimmed(s: Seq<char>) -> Seq<char> {
    trim_back(trim_front(s))
}

/// The pieces of `s` between occurrences of `sep`, in order. A string
/// without the separator is one piece; each separator ends a piece, so
/// `n` separators give `n + 1` pieces, some possibly empty.
pub open spec fn split_on(s: Seq<char>, sep: char) -> Seq<Seq<char>>
    decreases s.len(),
{
    if s.len() == 0 {
        seq![Seq::<char>::empty()]
    } else if s.last() == sep {
        split_on(s.drop_last(), sep).push(Seq::<char>::empty())
    } else {
        let r = split_on(s.drop_last(), sep);
        r.update(r.len() - 1, r.last().push(s.last()))
    }
}

/// Splitting always yields at least one piece.
pub proof fn lemma_split_on_nonempty(s: Seq<char>, sep: char)
    ensures
        split_on(s, sep).len() >= 1,
    decreases s.len(),
{
    if s.len() > 0 {
        lemma_split_on_nonempty(s.drop_last(), sep);
    }
}

/// How splitting grows when one character is appended: a separator opens a
/// new empty piece, any other character extends the last piece.
pub proof fn lemma_split_on_push(s: Seq<char>, sep: char, c: char)
    ensures
        split_on(s.push(c), sep) == if c == sep {
            split_on(s, sep).push(Seq::<char>::empty())
        } else {
            let r = split_on(s, sep);
            r.update(r.len() - 1, r.last().push(c))
        },
{
    assert(s.push(c).drop_last() =~= s);
    assert(s.push(c).last() == c);
}

/// A string contains the separator exactly when it splits into two or more
/// pieces.
pub proof fn lemma_split_on_contains(s: Seq<char>, sep: char)
    ensures
        s.contains(sep) <==> split_on(s, sep).len() >= 2,
    decreases s.len(),
{
    lemma_split_on_nonempty(s, sep);
    if s.len() > 0 {
        lemma_split_on_contains(s.drop_last(), sep);
        lemma_split_on_nonempty(s.drop_last(), sep);
        if s.last() == sep {
            assert(s.contains(sep));
        } else {
            if s.drop_last().contains(sep) {
                let i = choose|i: int| 0 <= i < s.drop_last().len() && s.drop_last()[i] == sep;
                assert(s[i] == sep);
                assert(s.contains(sep));
            }
            if s.contains(sep) {
                let i = choose|i: int| 0 <= i < s.len() && s[i] == sep;
                assert(i < s.len() - 1);
                assert(s.drop_last()[i] == sep);
                assert(s.drop_last().contains(sep));
            }
        }
    }
}

/// Every character of `s` other than the separator appears in one of the
/// pieces of the split.
pub proof fn lemma_split_on_covers(s: Seq<char>, sep: char, c: char)
    requires
        c != sep,
        s.contains(c),
    ensures
        exists|i: int|
            0 <= i < split_on(s, sep).len() && #[trigger] split_on(s, sep)[i].contains(c),
    decreases s.len(),
{
    lemma_split_on_nonempty(s.drop_last(), sep);
    let r = split_on(s.drop_last(), sep);
    if s.last() == c {
        let ext = r.last().push(c);
        assert(ext[ext.len() - 1] == c);
        assert(ext.contains(c));
        assert(split_on(s, sep)[r.len() - 1] == ext);
    } else {
        let i = choose|i: int| 0 <= i < s.len() && s[i] == c;
        assert(i < s.len() - 1);
        assert(s.drop_last()[i] == c);
        assert(s.drop_last().contains(c));
        lemma_split_on_covers(s.drop_last(), sep, c);
        let j = choose|j: int| 0 <= j < r.len() && #[trigger] r[j].contains(c);
        if s.last() == sep {
            assert(split_on(s, sep)[j] == r[j]);
        } else {
            if j == r.len() - 1 {
                let k = choose|k: int| 0 <= k < r[j].len() && r[j][k] == c;
                let ext = r.last().push(s.last());
                assert(ext[k] == c);
                assert(split_on(s, sep)[j] == ext);
                assert(split_on(s, sep)[j].contains(c));
            } else {
                assert(split_on(s, sep)[j] == r[j]);
            }
        }
    }
}

/// Trimming removes only whitespace: any other character survives.
pub proof fn lemma_trimmed_keeps(s: Seq<char>, c: char)
    requires
        !is_space(c),
        s.contains(c),
    ensures
        trimmed(s).contains(c),
{
    lemma_trim_front_keeps(s, c);
    lemma_trim_back_keeps(trim_front(s), c);
}

proof fn lemma_trim_front_keeps(s: Seq<char>, c: char)
    requires
        !is_space(c),
        s.contains(c),
    ensures
        trim_front(s).contains(c),
    decreases s.len(),
{
    if s.len() > 0 && is_space(s[0]) {
        let i = choose|i: int| 0 <= i < s.len() && s[i] == c;
        assert(s.drop_first()[i - 1] == c);
        assert(s.drop_first().contains(c));
        lemma_trim_front_keeps(s.drop_first(), c);
    }
}

proof fn lemma_trim_back_keeps(s: Seq<char>, c: char)
    requires
        !is_space(c),
        s.contains(c),
    ensures
        trim_back(s).contains(c),
    decreases s.len(),
{
    if s.len() > 0 && is_space(s.last()) {
        let i = choose|i: int| 0 <= i < s.len() && s[i] == c;
        assert(s.drop_last()[i] == c);
        assert(s.drop_last().contains(c));
        lemma_trim_back_keeps(s.drop_last(), c);
    }
}

/// The value of a digit string never shrinks as digits are appended.
pub proof fn lemma_digits_val_take_le(s: Seq<char>, i: int)
    requires
        all_digits(s),
        0 <= i <= s.len(),
    ensures
        digits_val(s.take(i)) <= digits_val(s),
    decreases s.len() - i,
{
    lemma_digits_val_nonneg(s.take(i));
    if i < s.len() {
        lemma_digits_val_take_le(s, i + 1);
        assert(s.take(i + 1).drop_last() =~= s.take(i));
        assert(digits_val(s.take(i + 1)) == 10 * digits_val(s.take(i)) + digit_val(s[i]));
        lemma_digits_val_nonneg(s.take(i));
    } else {
        assert(s.take(i) =~= s);
    }
}

/// A digit string's value is never negative.
pub proof fn lemma_digits_val_nonneg(s: Seq<char>)
    requires
        all_digits(s),
    ensures
        digits_val(s) >= 0,
    decreases s.len(),
{
    if s.len() > 0 {
        assert(all_digits(s.drop_last()));
        lemma_digits_val_nonneg(s.drop_last());
        assert(is_digit(s.last()));
    }
}

/// The digit character for a value between zero and nine.
pub open spec fn digit_char(d: int) -> char {
    ((('0' as int) + d) as u32) as char
}

/// The decimal text of a non-negative number, most significant digit first.
pub open spec fn dec_digits(n: int) -> Seq<char>
    decreases n,
{
    if n <= 9 {
        seq![digit_char(n)]
    } else {
        dec_digits(n / 10).push(digit_char(n % 10))
    }
}

/// The decimal text of a 32-bit value is a literal token denoting that
/// value: rendering and reading back are inverses.
pub proof fn lemma_dec_digits(n: int)
    requires
        0 <= n <= u32::MAX,
    ensures
        is_literal(dec_digits(n)),
        digits_val(dec_digits(n)) == n,
    decreases n,
{
    if n <= 9 {
        assert(is_digit(digit_char(n)));
        assert(dec_digits(n).drop_last() =~= Seq::<char>::empty());
        assert(digits_val(Seq::<char>::empty()) == 0);
        assert(dec_digits(n).len() == 1);
        assert(dec_digits(n).last() == digit_char(n));
        assert(digits_val(dec_digits(n)) == 10 * digits_val(dec_digits(n).drop_last()) + digit_val(
            dec_digits(n).last(),
        ));
    } else {
        lemma_dec_digits(n / 10);
        let prefix = dec_digits(n / 10);
        let whole = dec_digits(n);
        assert(whole == prefix.push(digit_char(n % 10)));
        assert(whole.drop_last() =~= prefix);
        assert(is_digit(digit_char(n % 10)));
        assert(all_digits(whole)) by {
            assert(forall|i: int| 0 <= i < prefix.len() ==> whole[i] == prefix[i]);
        }
        assert(digits_val(whole) == 10 * digits_val(prefix) + digit_val(digit_char(n % 10)));
        vstd::arithmetic::div_mod::lemma_fundamental_div_mod(n, 10);
    }
}

/// A token holding a character that is neither a digit nor a lowercase
/// letter is no operand.
pub proof fn lemma_foreign_char_not_val_token(t: Seq<char>, c: char)
    requires
        t.contains(c),
        !is_digit(c),
        !is_lower(c),
    ensures
        !is_val_token(t),
{
    let i = choose|i: int| 0 <= i < t.len() && t[i] == c;
    if is_literal(t) {
        assert(is_digit(t[i]));
    }
    if is_symbol_seq(t) {
        assert(i == 0);
    }
}

/// Whether `s` holds the character `c`.
pub fn contains_char(s: &str, c: char) -> (r: bool)
    ensures
        r == s@.contains(c),
{
    let n = s.unicode_len();
    for i in 0..n
        invariant
            n == s@.len(),
            forall|j: int| 0 <= j < i ==> s@[j] != c,
    {
        if s.get_char(i) == c {
            assert(s@[i as int] == c);
            return true;
        }
    }
    assert(forall|j: int| 0 <= j < s@.len() ==> s@[j] != c);
    false
}

/// Whether `c` is whitespace, as the trimming model counts it.
fn is_space_char(c: char) -> (r: bool)
    ensures
        r == is_space(c),
{
    c == ' ' || c == '\t' || c == '\n' || c == '\r'
}

/// `s` without leading and trailing whitespace.
pub fn trim_str<'a>(s: &'a str) -> (r: &'a str)
    ensures
        r@ == trimmed(s@),
{
    let n = s.unicode_len();
    proof {
        assert(s@.subrange(0, n as int) =~= s@);
    }
    let mut lo: usize = 0;
    while lo < n && is_space_char(s.get_char(lo))
        invariant
            n == s@.len(),
            lo <= n,
            trim_front(s@.subrange(lo as int, n as int)) == trim_front(s@),
        decreases n - lo,
    {
        proof {
            let t = s@.subrange(lo as int, n as int);
            assert(t.drop_first() =~= s@.subrange(lo as int + 1, n as int));
        }
        lo = lo + 1;
    }
    proof {
        let t = s@.subrange(lo as int, n as int);
        if lo < n {
            assert(!is_space(t[0]));
        }
        assert(trim_front(t) == t);
        assert(trim_front(s@) == s@.subrange(lo as int, n as int));
    }
    let mut hi: usize = n;
    while hi > lo && is_space_char(s.get_char(hi - 1))
        invariant
            n == s@.len(),
            lo <= hi <= n,
            trim_front(s@) == s@.subrange(lo as int, n as int),
            trim_back(s@.subrange(lo as int, hi as int)) == trim_back(trim_front(s@)),
        decreases hi,
    {
        proof {
            let t = s@.subrange(lo as int, hi as int);
            assert(t.last() == s@[hi - 1]);
            assert(t.drop_last() =~= s@.subrange(lo as int, hi as int - 1));
        }
        hi = hi - 1;
    }
    proof {
        let t = s@.subrange(lo as int, hi as int);
        if hi > lo {
            assert(!is_space(t.last()));
        }
        assert(trim_back(t) == t);
    }
    s.substring_char(lo, hi)
}

/// The pieces of `s` between occurrences of `sep`, in order, as slices of
/// `s`.
pub fn split_str<'a>(s: &'a str, sep: char) -> (r: Vec<&'a str>)
    ensures
        r@.len() == split_on(s@, sep).len(),
        forall|i: int| 0 <= i < r@.len() ==> r@[i]@ == split_on(s@, sep)[i],
{
    let n = s.unicode_len();
    let mut pieces: Vec<&'a str> = Vec::new();
    let mut start: usize = 0;
    let mut i: usize = 0;
    proof {
        assert(s@.take(0) =~= Seq::<char>::empty());
        assert(s@.subrange(0, 0) =~= Seq::<char>::empty());
    }
    while i < n
        invariant
            n == s@.len(),
            start <= i <= n,
            split_on(s@.take(i as int), sep).len() == pieces@.len() + 1,
            forall|j: int|
                0 <= j < pieces@.len() ==> pieces@[j]@ == #[trigger] split_on(
                    s@.take(i as int),
                    sep,
                )[j],
            split_on(s@.take(i as int), sep).last() == s@.subrange(start as int, i as int),
        decreases n - i,
    {
        let ghost sp = split_on(s@.take(i as int), sep);
        proof {
            assert(s@.take(i as int + 1) =~= s@.take(i as int).push(s@[i as int]));
            lemma_split_on_push(s@.take(i as int), sep, s@[i as int]);
        }
        let c = s.get_char(i);
        if c == sep {
            let ghost sp2 = split_on(s@.take(i as int + 1), sep);
            proof {
                assert(sp2 == sp.push(Seq::<char>::empty()));
                assert(sp2[sp.len() - 1] == sp.last());
            }
            pieces.push(s.substring_char(start, i));
            start = i + 1;
            proof {
                assert(s@.subrange(i as int + 1, i as int + 1) =~= Seq::<char>::empty());
                assert(sp2.last() == Seq::<char>::empty());
                assert(forall|j: int| 0 <= j < pieces@.len() ==> pieces@[j]@ == #[trigger] sp2[j]);
            }
        } else {
            let ghost sp2 = split_on(s@.take(i as int + 1), sep);
            proof {
                assert(sp2 == sp.update(sp.len() - 1, sp.last().push(s@[i as int])));
                assert(s@.subrange(start as int, i as int + 1) =~= s@.subrange(
                    start as int,
                    i as int,
                ).push(s@[i as int]));
                assert(sp2.last() == s@.subrange(start as int, i as int + 1));
                assert(forall|j: int| 0 <= j < pieces@.len() ==> pieces@[j]@ == #[trigger] sp2[j]);
            }
        }
        i = i + 1;
    }
    proof {
        assert(s@.take(n as int) =~= s@);
    }
    pieces.push(s.substring_char(start, n));
    pieces
}

/// Whether `s` is a symbol: a single lowercase ASCII letter.
pub fn is_symbol(s: &str) -> (r: bool)
    ensures
        r == is_symbol_seq(s@),
{
    if s.unicode_len() != 1 {
        return false;
    }
    let c = s.get_char(0);
    'a' <= c && c <= 'z'
}

/// Parses an unsigned decimal literal, rejecting any token with a sign, a
/// non-digit character, or a value that does not fit in 32 bits.
pub fn parse_u32(s: &str) -> (r: Option<u32>)
    ensures
        is_literal(s@) ==> r == Some(digits_val(s@) as u32),
        !is_literal(s@) ==> r is None,
{
    let n = s.unicode_len();
    if n == 0 {
        return None;
    }
    let mut acc: u32 = 0;
    for i in 0..n
        invariant
            0 < n == s@.len(),
            all_digits(s@.take(i as int)),
            acc == digits_val(s@.take(i as int)),
    {
        let c = s.get_char(i);
        if c < '0' || c > '9' {
            assert(!is_digit(s@[i as int]));
            assert(!all_digits(s@));
            return None;
        }
        let d: u32 = c as u32 - '0' as u32;
        proof {
            assert(s@.take(i as int + 1) =~= s@.take(i as int).push(s@[i as int]));
            assert(s@.take(i as int + 1).drop_last() =~= s@.take(i as int));
            assert(digits_val(s@.take(i as int + 1)) == 10 * digits_val(s@.take(i as int))
                + digit_val(s@[i as int]));
            assert(d == digit_val(s@[i as int]));
        }
        if acc > (u32::MAX - d) / 10 {
            proof {
                assert(10 * (acc as int) + d > u32::MAX) by (nonlinear_arith)
                    requires
                        acc as int > ((u32::MAX - d) as int) / 10,
                        0 <= d <= 9,
                ;
                if all_digits(s@) {
                    lemma_digits_val_take_le(s@, i as int + 1);
                }
            }
            return None;
        }
        proof {
            assert(10 * (acc as int) + d <= u32::MAX) by (nonlinear_arith)
                requires
                    acc as int <= ((u32::MAX - d) as int) / 10,
                    0 <= acc,
                    0 <= d <= 9,
            ;
        }
        acc = acc * 10 + d;
    }
    proof {
        assert(s@.take(n as int) =~= s@);
    }
    Some(acc)
}

} // verus!
