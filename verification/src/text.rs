use vstd::prelude::*;

verus! {

// ---------------------------------------------------------------------------
// Character classes
//
// The expression language is ASCII: decimal digits, the period, a small fixed
// operator alphabet, and blank characters. Each class has a spec-level
// predicate and an executable test proved against it.
// ---------------------------------------------------------------------------

pub open spec fn is_digit_char(c: char) -> bool {
    '0' <= c <= '9'
}

pub open spec fn is_space_char(c: char) -> bool {
    c == ' ' || c == '\t' || c == '\n' || c == '\r'
}

pub fn digit_char(c: char) -> (b: bool)
    ensures
        b == is_digit_char(c),
{
    '0' <= c && c <= '9'
}

pub fn space_char(c: char) -> (b: bool)
    ensures
        b == is_space_char(c),
{
    c == ' ' || c == '\t' || c == '\n' || c == '\r'
}

/// The numeric value of a decimal digit character.
pub open spec fn digit_of(c: char) -> nat {
    (c as nat - '0' as nat) as nat
}

/// The decimal digit character for a value below ten.
pub open spec fn char_of_digit(d: nat) -> char {
    if d == 0 { '0' }
    else if d == 1 { '1' }
    else if d == 2 { '2' }
    else if d == 3 { '3' }
    else if d == 4 { '4' }
    else if d == 5 { '5' }
    else if d == 6 { '6' }
    else if d == 7 { '7' }
    else if d == 8 { '8' }
    else { '9' }
}

// ---------------------------------------------------------------------------
// Decimal text for unsigned sizes
// ---------------------------------------------------------------------------

/// The value of a run of decimal digits, most significant first.
pub open spec fn digits_val(s: Seq<char>) -> nat
    decreases s.len(),
{
    if s.len() == 0 {
        0
    } else {
        digits_val(s.drop_last()) * 10 + digit_of(s.last())
    }
}

pub open spec fn all_digits(s: Seq<char>) -> bool {
    forall|i: int| 0 <= i < s.len() ==> is_digit_char(#[trigger] s[i])
}

/// The canonical decimal text of a number: no sign, no leading zero except
/// for zero itself.
pub open spec fn decimal_digits(n: nat) -> Seq<char>
    decreases n,
{
    if n < 10 {
        seq![char_of_digit(n)]
    } else {
        decimal_digits(n / 10).push(char_of_digit(n % 10))
    }
}

pub proof fn lemma_decimal_digits_all_digits(n: nat)
    ensures
        all_digits(decimal_digits(n)),
        decimal_digits(n).len() >= 1,
    decreases n,
{
    if n < 10 {
    } else {
        lemma_decimal_digits_all_digits(n / 10);
        assert forall|i: int| 0 <= i < decimal_digits(n).len() implies is_digit_char(
            #[trigger] decimal_digits(n)[i],
        ) by {
            if i < decimal_digits(n / 10).len() {
                assert(decimal_digits(n)[i] == decimal_digits(n / 10)[i]);
            }
        }
    }
}

pub proof fn lemma_digit_of_char(d: nat)
    requires
        d < 10,
    ensures
        digit_of(char_of_digit(d)) == d,
        is_digit_char(char_of_digit(d)),
{
    if d == 0 { assert(digit_of('0') == 0 && is_digit_char('0')); }
    else if d == 1 { assert(digit_of('1') == 1 && is_digit_char('1')); }
    else if d == 2 { assert(digit_of('2') == 2 && is_digit_char('2')); }
    else if d == 3 { assert(digit_of('3') == 3 && is_digit_char('3')); }
    else if d == 4 { assert(digit_of('4') == 4 && is_digit_char('4')); }
    else if d == 5 { assert(digit_of('5') == 5 && is_digit_char('5')); }
    else if d == 6 { assert(digit_of('6') == 6 && is_digit_char('6')); }
    else if d == 7 { assert(digit_of('7') == 7 && is_digit_char('7')); }
    else if d == 8 { assert(digit_of('8') == 8 && is_digit_char('8')); }
    else { assert(digit_of('9') == 9 && is_digit_char('9')); }
}

pub proof fn lemma_decimal_digits_val(n: nat)
    ensures
        digits_val(decimal_digits(n)) == n,
    decreases n,
{
    if n < 10 {
        lemma_digit_of_char(n);
        let s = decimal_digits(n);
        assert(s == seq![char_of_digit(n)]);
        assert(s.drop_last() =~= Seq::<char>::empty());
        assert(digits_val(s) == digits_val(s.drop_last()) * 10 + digit_of(s.last()));
        assert(digits_val(Seq::<char>::empty()) == 0);
        assert(s.last() == char_of_digit(n));
    } else {
        lemma_decimal_digits_val(n / 10);
        lemma_digit_of_char(n % 10);
        let s = decimal_digits(n);
        assert(s == decimal_digits(n / 10).push(char_of_digit(n % 10)));
        assert(s.drop_last() =~= decimal_digits(n / 10));
        assert(s.last() == char_of_digit(n % 10));
        assert(digits_val(s) == digits_val(s.drop_last()) * 10 + digit_of(s.last()));
        assert(digits_val(s) == n / 10 * 10 + n % 10);
    }
}

/// What `parse_usize` accepts: a nonempty run of digits whose value fits.
pub open spec fn usize_of_text(s: Seq<char>) -> Option<usize> {
    if s.len() > 0 && all_digits(s) && digits_val(s) <= usize::MAX {
        Some(digits_val(s) as usize)
    } else {
        None
    }
}

/// Reads a nonnegative decimal count, refusing empty text, any character
/// that is not a digit, and values that do not fit.
pub fn parse_usize(s: &str) -> (r: Option<usize>)
    ensures
        r == usize_of_text(s@),
{
    let n = s.unicode_len();
    if n == 0 {
        return None;
    }
    let mut acc: usize = 0;
    let mut i: usize = 0;
    while i < n
        invariant
            0 < n == s@.len(),
            0 <= i <= n,
            all_digits(s@.subrange(0, i as int)),
            acc == digits_val(s@.subrange(0, i as int)),
        decreases n - i,
    {
        let c = s.get_char(i);
        if !digit_char(c) {
            assert(!all_digits(s@));
            return None;
        }
        let d: usize = char_digit_value(c);
        if acc > usize::MAX / 10 {
            proof {
                lemma_digits_val_grows(s@, i as int);
                assert(digits_val(s@) >= digits_val(s@.subrange(0, i as int)) * 10);
                assert(acc * 10 > usize::MAX) by (nonlinear_arith)
                    requires
                        acc > usize::MAX / 10,
                        usize::MAX >= 10,
                ;
                assert(digits_val(s@) > usize::MAX);
            }
            return None;
        }
        proof {
            assert(acc * 10 <= usize::MAX) by (nonlinear_arith)
                requires
                    acc <= usize::MAX / 10,
            ;
        }
        let base: usize = acc * 10;
        if base > usize::MAX - d {
            proof {
                assert(s@.subrange(0, i + 1).drop_last() =~= s@.subrange(0, i as int));
                assert(digits_val(s@.subrange(0, i + 1)) == acc * 10 + d);
                lemma_digits_val_prefix(s@, i + 1);
                assert(digits_val(s@) > usize::MAX);
            }
            return None;
        }
        acc = base + d;
        i = i + 1;
        assert(s@.subrange(0, i as int).drop_last() =~= s@.subrange(0, i - 1));
    }
    assert(s@.subrange(0, n as int) =~= s@);
    Some(acc)
}

fn char_digit_value(c: char) -> (d: usize)
    requires
        is_digit_char(c),
    ensures
        d == digit_of(c),
        d < 10,
{
    (c as u32 - '0' as u32) as usize
}

/// If a prefix of a digit run already exceeds the value bound, the whole
/// run does too.
proof fn lemma_digits_val_grows(s: Seq<char>, i: int)
    requires
        0 <= i < s.len(),
    ensures
        digits_val(s) >= digits_val(s.subrange(0, i)) * 10,
    decreases s.len() - i,
{
    if i == s.len() - 1 {
        assert(s.drop_last() =~= s.subrange(0, i));
    } else {
        lemma_digits_val_grows(s, i + 1);
        assert(s.subrange(0, i + 1).drop_last() =~= s.subrange(0, i));
        let a = digits_val(s.subrange(0, i));
        let b = digits_val(s.subrange(0, i + 1));
        assert(b == a * 10 + digit_of(s[i]));
        assert(digits_val(s) >= a * 10) by (nonlinear_arith)
            requires
                digits_val(s) >= b * 10,
                b >= a,
        ;
    }
}

/// A prefix of a digit run never exceeds the whole run in value.
proof fn lemma_digits_val_prefix(s: Seq<char>, i: int)
    requires
        0 <= i <= s.len(),
    ensures
        digits_val(s) >= digits_val(s.subrange(0, i)),
    decreases s.len() - i,
{
    if i == s.len() {
        assert(s.subrange(0, i) =~= s);
    } else {
        lemma_digits_val_prefix(s, i + 1);
        assert(s.subrange(0, i + 1).drop_last() =~= s.subrange(0, i));
        let a = digits_val(s.subrange(0, i));
        assert(digits_val(s.subrange(0, i + 1)) == a * 10 + digit_of(s[i]));
        assert(a * 10 >= a) by (nonlinear_arith);
    }
}

fn digit_str(d: usize) -> (r: &'static str)
    requires
        d < 10,
    ensures
        r@ =~= seq![char_of_digit(d as nat)],
{
    proof {
        reveal_strlit("0");
        reveal_strlit("1");
        reveal_strlit("2");
        reveal_strlit("3");
        reveal_strlit("4");
        reveal_strlit("5");
        reveal_strlit("6");
        reveal_strlit("7");
        reveal_strlit("8");
        reveal_strlit("9");
    }
    if d == 0 { "0" }
    else if d == 1 { "1" }
    else if d == 2 { "2" }
    else if d == 3 { "3" }
    else if d == 4 { "4" }
    else if d == 5 { "5" }
    else if d == 6 { "6" }
    else if d == 7 { "7" }
    else if d == 8 { "8" }
    else { "9" }
}

/// The digits of a suffix of `rem`, read back to front.
spec fn rev_digit_chars(rem: Seq<usize>) -> Seq<char>
    decreases rem.len(),
{
    if rem.len() == 0 {
        Seq::<char>::empty()
    } else {
        seq![char_of_digit(rem.last() as nat)] + rev_digit_chars(rem.drop_last())
    }
}

/// Writes a count as decimal text.
pub fn fmt_usize(n: usize) -> (r: String)
    ensures
        r@ == decimal_digits(n as nat),
{
    let mut rem: Vec<usize> = Vec::new();
    let mut m: usize = n;
    loop
        invariant_except_break
            (rem@.len() == 0 && m == n) || (m > 0 && rem@.len() > 0 && decimal_digits(n as nat)
                == decimal_digits(m as nat) + rev_digit_chars(rem@)),
        invariant
            forall|k: int| 0 <= k < rem@.len() ==> #[trigger] rem@[k] < 10,
        ensures
            decimal_digits(n as nat) == rev_digit_chars(rem@),
            forall|k: int| 0 <= k < rem@.len() ==> #[trigger] rem@[k] < 10,
        decreases m,
    {
        let d: usize = m % 10;
        let rem0: Ghost<Seq<usize>> = Ghost(rem@);
        rem.push(d);
        proof {
            assert(rem@.drop_last() =~= rem0@);
        }
        let m0: Ghost<usize> = Ghost(m);
        m = m / 10;
        proof {
            // before this step: digits of n == digits of m0 followed by the
            // reversed digits already collected
            assert(rev_digit_chars(rem@) =~= seq![char_of_digit(d as nat)] + rev_digit_chars(
                rem0@,
            ));
            if rem0@.len() == 0 {
                assert(m0@ == n);
                assert(decimal_digits(n as nat) == decimal_digits(m0@ as nat) + rev_digit_chars(
                    rem0@,
                )) by {
                    assert(decimal_digits(m0@ as nat) + Seq::<char>::empty() =~= decimal_digits(
                        m0@ as nat,
                    ));
                };
            }
            assert(decimal_digits(n as nat) == decimal_digits(m0@ as nat) + rev_digit_chars(
                rem0@,
            ));
            if m == 0 {
                assert(m0@ < 10);
                assert(decimal_digits(m0@ as nat) == seq![char_of_digit(d as nat)]);
                assert(decimal_digits(n as nat) =~= rev_digit_chars(rem@));
            } else {
                assert(decimal_digits(m0@ as nat) == decimal_digits(m as nat).push(
                    char_of_digit(d as nat),
                ));
                assert(decimal_digits(m as nat).push(char_of_digit(d as nat)) + rev_digit_chars(
                    rem0@,
                ) =~= decimal_digits(m as nat) + rev_digit_chars(rem@));
                assert(decimal_digits(n as nat) == decimal_digits(m as nat) + rev_digit_chars(
                    rem@,
                ));
            }
        }
        if m == 0 {
            break;
        }
    }
    let mut out = String::new();
    let mut i: usize = rem.len();
    proof {
        assert(rem@.subrange(0, i as int) =~= rem@);
        assert(out@ + rev_digit_chars(rem@) =~= rev_digit_chars(rem@));
    }
    while i > 0
        invariant
            0 <= i <= rem@.len(),
            forall|k: int| 0 <= k < rem@.len() ==> #[trigger] rem@[k] < 10,
            out@ + rev_digit_chars(rem@.subrange(0, i as int)) == rev_digit_chars(rem@),
        decreases i,
    {
        let d = rem[i - 1];
        proof {
            assert(rem@.subrange(0, i as int).drop_last() =~= rem@.subrange(0, i - 1));
            assert(rem@.subrange(0, i as int).last() == rem@[i - 1]);
        }
        out.append(digit_str(d));
        i = i - 1;
        proof {
            assert(out@ + rev_digit_chars(rem@.subrange(0, i as int)) =~= rev_digit_chars(rem@));
        }
    }
    proof {
        assert(rem@.subrange(0, 0) =~= Seq::<usize>::empty());
        assert(out@ + Seq::<char>::empty() =~= out@);
        assert(decimal_digits(n as nat) == rev_digit_chars(rem@));
    }
    out
}

/// Writing a count and reading it back gives the count again.
pub proof fn lemma_decimal_round_trip(n: usize)
    ensures
        usize_of_text(decimal_digits(n as nat)) == Some(n),
{
    lemma_decimal_digits_all_digits(n as nat);
    lemma_decimal_digits_val(n as nat);
}

// ---------------------------------------------------------------------------
// Space-separated tokens
//
// The postfix form and the storage encoding both use text made of tokens
// separated by single spaces. `split_sp` is the model of `str::split(' ')`:
// every space is a separator, so leading, trailing and doubled spaces
// produce empty tokens.
// ---------------------------------------------------------------------------

pub open spec fn split_sp(s: Seq<char>) -> Seq<Seq<char>>
    decreases s.len(),
{
    if s.len() == 0 {
        seq![Seq::<char>::empty()]
    } else if s.last() == ' ' {
        split_sp(s.drop_last()).push(Seq::<char>::empty())
    } else {
        let r = split_sp(s.drop_last());
        r.update(r.len() - 1, r.last().push(s.last()))
    }
}

pub proof fn lemma_split_sp_len(s: Seq<char>)
    ensures
        split_sp(s).len() >= 1,
    decreases s.len(),
{
    if s.len() > 0 {
        lemma_split_sp_len(s.drop_last());
    }
}

/// Tokens joined with single spaces, no leading or trailing space.
pub open spec fn join_sp(ts: Seq<Seq<char>>) -> Seq<char>
    decreases ts.len(),
{
    if ts.len() == 0 {
        Seq::<char>::empty()
    } else if ts.len() == 1 {
        ts[0]
    } else {
        join_sp(ts.drop_last()) + seq![' '] + ts.last()
    }
}

pub open spec fn space_free(t: Seq<char>) -> bool {
    forall|i: int| 0 <= i < t.len() ==> #[trigger] t[i] != ' '
}

pub open spec fn all_space_free(ts: Seq<Seq<char>>) -> bool {
    forall|i: int| 0 <= i < ts.len() ==> space_free(#[trigger] ts[i])
}

proof fn lemma_split_append_token(s: Seq<char>, t: Seq<char>)
    requires
        space_free(t),
    ensures
        split_sp(s + t) == split_sp(s).update(
            split_sp(s).len() - 1,
            split_sp(s).last() + t,
        ),
    decreases t.len(),
{
    lemma_split_sp_len(s);
    if t.len() == 0 {
        assert(s + t =~= s);
        assert(split_sp(s).last() + t =~= split_sp(s).last());
        assert(split_sp(s).update(split_sp(s).len() - 1, split_sp(s).last() + t) =~~= split_sp(
            s,
        ));
    } else {
        assert(space_free(t.drop_last()));
        lemma_split_append_token(s, t.drop_last());
        assert((s + t).drop_last() =~= s + t.drop_last());
        assert((s + t).len() > 0 && (s + t).last() == t.last());
        assert(t.last() != ' ');
        let r = split_sp(s + t.drop_last());
        lemma_split_sp_len(s + t.drop_last());
        assert(split_sp(s + t) == r.update(r.len() - 1, r.last().push(t.last())));
        assert(r.last() == split_sp(s).last() + t.drop_last());
        assert((split_sp(s).last() + t.drop_last()).push(t.last()) =~= split_sp(s).last() + t);
        assert(split_sp(s + t) =~~= split_sp(s).update(
            split_sp(s).len() - 1,
            split_sp(s).last() + t,
        ));
    }
}

/// Splitting undoes joining, for tokens that contain no space.
pub proof fn lemma_split_join(ts: Seq<Seq<char>>)
    requires
        ts.len() >= 1,
        all_space_free(ts),
    ensures
        split_sp(join_sp(ts)) == ts,
    decreases ts.len(),
{
    if ts.len() == 1 {
        lemma_split_of_token(ts[0]);
        assert(join_sp(ts) == ts[0]);
        assert(split_sp(join_sp(ts)) =~~= ts);
    } else {
        assert(all_space_free(ts.drop_last())) by {
            assert(forall|i: int|
                0 <= i < ts.len() - 1 ==> space_free(#[trigger] ts.drop_last()[i]));
        };
        lemma_split_join(ts.drop_last());
        let pre = join_sp(ts.drop_last()) + seq![' '];
        assert(pre.drop_last() =~= join_sp(ts.drop_last()));
        assert(pre.last() == ' ');
        assert(split_sp(pre) == split_sp(join_sp(ts.drop_last())).push(Seq::<char>::empty()));
        lemma_split_append_token(pre, ts.last());
        assert(join_sp(ts) =~= pre + ts.last());
        let r = split_sp(pre);
        assert(r.last() + ts.last() =~= ts.last());
        assert(split_sp(join_sp(ts)) =~~= ts);
    }
}

proof fn lemma_split_of_token(t: Seq<char>)
    requires
        space_free(t),
    ensures
        split_sp(t) == seq![t],
    decreases t.len(),
{
    if t.len() == 0 {
        assert(split_sp(t) =~~= seq![t]);
    } else {
        assert(space_free(t.drop_last()));
        lemma_split_of_token(t.drop_last());
        assert(t.last() != ' ');
        assert(t.drop_last().push(t.last()) =~= t);
        assert(split_sp(t) =~~= seq![t]);
    }
}

/// Character-for-character equality of two texts.
pub fn str_eq(a: &str, b: &str) -> (r: bool)
    ensures
        r == (a@ == b@),
{
    let n = a.unicode_len();
    let m = b.unicode_len();
    if n != m {
        return false;
    }
    let mut i: usize = 0;
    while i < n
        invariant
            0 <= i <= n == a@.len(),
            n == b@.len(),
            forall|k: int| 0 <= k < i ==> a@[k] == #[trigger] b@[k],
        decreases n - i,
    {
        if a.get_char(i) != b.get_char(i) {
            return false;
        }
        i = i + 1;
    }
    proof {
        assert(a@ =~= b@);
    }
    true
}

/// Whether the text opens with the three given characters.
pub fn has_tag3(s: &str, c0: char, c1: char, c2: char) -> (b: bool)
    requires
        s@.len() >= 3,
    ensures
        b == (s@.subrange(0, 3) == seq![c0, c1, c2]),
{
    let ok = s.get_char(0) == c0 && s.get_char(1) == c1 && s.get_char(2) == c2;
    proof {
        assert(ok ==> s@.subrange(0, 3) =~= seq![c0, c1, c2]);
        if s@.subrange(0, 3) == seq![c0, c1, c2] {
            assert(s@[0] == s@.subrange(0, 3)[0]);
            assert(s@[1] == s@.subrange(0, 3)[1]);
            assert(s@[2] == s@.subrange(0, 3)[2]);
            assert(ok);
        }
    }
    ok
}

// ---------------------------------------------------------------------------
// Trimming
// ---------------------------------------------------------------------------

pub open spec fn trim_front(s: Seq<char>) -> Seq<char>
    decreases s.len(),
{
    if s.len() > 0 && is_space_char(s[0]) {
        trim_front(s.drop_first())
    } else {
        s
    }
}

pub open spec fn trim_back(s: Seq<char>) -> Seq<char>
    decreases s.len(),
{
    if s.len() > 0 && is_space_char(s.last()) {
        trim_back(s.drop_last())
    } else {
        s
    }
}

/// The text with blank characters removed from both ends.
pub open spec fn trim_spec(s: Seq<char>) -> Seq<char> {
    trim_back(trim_front(s))
}

fn space_at(s: &str, i: usize) -> (b: bool)
    requires
        i < s@.len(),
    ensures
        b == is_space_char(s@[i as int]),
{
    space_char(s.get_char(i))
}

/// Strips blanks from both ends of the text.
pub fn trim_str<'a>(s: &'a str) -> (r: &'a str)
    ensures
        r@ == trim_spec(s@),
{
    let n = s.unicode_len();
    let mut start: usize = 0;
    proof {
        assert(s@.skip(0) =~= s@);
    }
    while start < n && space_at(s, start)
        invariant
            0 <= start <= n == s@.len(),
            trim_front(s@) == trim_front(s@.skip(start as int)),
        decreases n - start,
    {
        proof {
            assert(s@.skip(start as int).drop_first() =~= s@.skip(start + 1));
            assert(s@.skip(start as int)[0] == s@[start as int]);
        }
        start = start + 1;
    }
    proof {
        if start < n {
            assert(s@.skip(start as int)[0] == s@[start as int]);
        }
        assert(trim_front(s@) == s@.skip(start as int));
    }
    let mut end: usize = n;
    proof {
        assert(s@.skip(start as int).take(n - start) =~= s@.skip(start as int));
    }
    while end > start && space_at(s, end - 1)
        invariant
            start <= end <= n == s@.len(),
            trim_front(s@) == s@.skip(start as int),
            trim_back(s@.skip(start as int)) == trim_back(
                s@.skip(start as int).take(end - start),
            ),
        decreases end,
    {
        proof {
            let piece = s@.skip(start as int).take(end - start);
            assert(piece.last() == s@[end - 1]);
            assert(piece.drop_last() =~= s@.skip(start as int).take(end - 1 - start));
        }
        end = end - 1;
    }
    proof {
        let piece = s@.skip(start as int).take(end - start);
        if end > start {
            assert(piece.last() == s@[end - 1]);
        }
        assert(trim_back(piece) == piece);
        assert(s@.skip(start as int).take(end - start) =~= s@.subrange(
            start as int,
            end as int,
        ));
    }
    s.substring_char(start, end)
}

/// Splits text on every space, as the standard splitter does. The pieces
/// come back as borrowed slices of the input.
pub fn split_spaces<'a>(s: &'a str) -> (r: Vec<&'a str>)
    ensures
        r@.len() == split_sp(s@).len(),
        forall|i: int| 0 <= i < r@.len() ==> #[trigger] r@[i]@ == split_sp(s@)[i],
{
    let n = s.unicode_len();
    let mut r: Vec<&'a str> = Vec::new();
    let mut start: usize = 0;
    let mut i: usize = 0;
    while i < n
        invariant
            0 <= start <= i <= n == s@.len(),
            r@.len() + 1 == split_sp(s@.subrange(0, i as int)).len(),
            forall|k: int| 0 <= k < r@.len() ==> #[trigger] r@[k]@ == split_sp(
                s@.subrange(0, i as int),
            )[k],
            split_sp(s@.subrange(0, i as int)).last() =~= s@.subrange(start as int, i as int),
        decreases n - i,
    {
        let c = s.get_char(i);
        proof {
            assert(s@.subrange(0, i + 1).drop_last() =~= s@.subrange(0, i as int));
            lemma_split_sp_len(s@.subrange(0, i as int));
        }
        if c == ' ' {
            let piece = s.substring_char(start, i);
            r.push(piece);
            start = i + 1;
            proof {
                assert(split_sp(s@.subrange(0, i + 1)) == split_sp(s@.subrange(0, i as int)).push(
                    Seq::<char>::empty(),
                ));
                assert(s@.subrange(start as int, i + 1) =~= Seq::<char>::empty());
            }
        } else {
            proof {
                let old_sp = split_sp(s@.subrange(0, i as int));
                assert(split_sp(s@.subrange(0, i + 1)) == old_sp.update(
                    old_sp.len() - 1,
                    old_sp.last().push(s@[i as int]),
                ));
                assert(s@.subrange(start as int, i as int).push(s@[i as int]) =~= s@.subrange(
                    start as int,
                    i + 1,
                ));
            }
        }
        i = i + 1;
    }
    let piece = s.substring_char(start, n);
    r.push(piece);
    proof {
        assert(s@.subrange(0, n as int) =~= s@);
        lemma_split_sp_len(s@);
        assert(forall|k: int| 0 <= k < r@.len() - 1 ==> #[trigger] r@[k]@ == split_sp(s@)[k]);
        assert(r@.last()@ == split_sp(s@).last());
    }
    r
}

} // verus!
