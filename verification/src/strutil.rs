//! Character-level text helpers used by the document passes.
use vstd::prelude::*;

verus! {

/// The character views of a sequence of strings.
pub open spec fn strings_view(v: Seq<String>) -> Seq<Seq<char>> {
    v.map_values(|x: String| x@)
}

/// The sequence of `n` newline characters.
pub open spec fn newlines(n: nat) -> Seq<char> {
    Seq::new(n, |i: int| '\n')
}

/// The number of newlines that start `s`.
pub open spec fn leading_newline_count(s: Seq<char>) -> nat
    decreases s.len(),
{
    if s.len() > 0 && s[0] == '\n' {
        1 + leading_newline_count(s.drop_first())
    } else {
        0
    }
}

/// The number of newlines that end `s`.
pub open spec fn trailing_newline_count(s: Seq<char>) -> nat
    decreases s.len(),
{
    if s.len() > 0 && s.last() == '\n' {
        1 + trailing_newline_count(s.drop_last())
    } else {
        0
    }
}

proof fn lemma_leading_count(s: Seq<char>, n: nat)
    requires
        n <= s.len(),
        forall|i: int| 0 <= i < n ==> s[i] == '\n',
        n < s.len() ==> s[n as int] != '\n',
    ensures
        leading_newline_count(s) == n,
    decreases n,
{
    if n > 0 {
        lemma_leading_count(s.drop_first(), (n - 1) as nat);
    }
}

proof fn lemma_trailing_count(s: Seq<char>, n: nat)
    requires
        n <= s.len(),
        forall|i: int| s.len() - n <= i < s.len() ==> s[i] == '\n',
        n < s.len() ==> s[s.len() - n - 1] != '\n',
    ensures
        trailing_newline_count(s) == n,
    decreases n,
{
    if n > 0 {
        lemma_trailing_count(s.drop_last(), (n - 1) as nat);
    }
}

/// Counts the newlines that start `text`.
pub fn count_leading_newline(text: &str) -> (r: usize)
    ensures
        r == leading_newline_count(text@),
{
    let len = text.unicode_len();
    let mut result: usize = 0;
    let mut done = false;
    for c in it: text.chars()
        invariant
            it.seq() == text@,
            len == text@.len(),
            result <= it.index(),
            forall|i: int| 0 <= i < result ==> text@[i] == '\n',
            !done ==> result == it.index(),
            done ==> result < it.index() && text@[result as int] != '\n',
    {
        if !done {
            if c == '\n' {
                result = result + 1;
            } else {
                done = true;
            }
        }
    }
    proof {
        lemma_leading_count(text@, result as nat);
    }
    result
}

/// Counts the newlines that end `text`.
pub fn count_tailing_newline(text: &str) -> (r: usize)
    ensures
        r == trailing_newline_count(text@),
{
    let len = text.unicode_len();
    let mut run: usize = 0;
    for c in it: text.chars()
        invariant
            it.seq() == text@,
            len == text@.len(),
            run <= it.index(),
            forall|i: int| it.index() - run <= i < it.index() ==> text@[i] == '\n',
            run < it.index() ==> text@[it.index() - run - 1] != '\n',
    {
        if c == '\n' {
            run = run + 1;
        } else {
            run = 0;
        }
    }
    proof {
        lemma_trailing_count(text@, run as nat);
    }
    run
}

/// A string made of `n` newlines.
fn newline_string(n: usize) -> (r: String)
    ensures
        r@ == newlines(n as nat),
{
    let mut s = String::new();
    let mut k: usize = 0;
    while k < n
        invariant
            k <= n,
            s@ == newlines(k as nat),
        decreases n - k,
    {
        proof {
            reveal_strlit("\n");
        }
        s.append("\n");
        k = k + 1;
        assert(s@ =~= newlines(k as nat));
    }
    s
}

/// Puts back around `dest` the newlines that started and ended `orig`.
pub fn restore_triming_newlines(dest: &mut String, orig: &str)
    ensures
        final(dest)@ == newlines(leading_newline_count(orig@)) + old(dest)@ + newlines(
            trailing_newline_count(orig@),
        ),
{
    let mut leading = newline_string(count_leading_newline(orig));
    leading.append(dest.as_str());
    let tailing = newline_string(count_tailing_newline(orig));
    leading.append(tailing.as_str());
    *dest = leading;
}

/// Whether `c` has the Unicode `White_Space` property, as `char::is_whitespace` says.
pub open spec fn is_whitespace_char(c: char) -> bool {
    ||| ('\t' <= c <= '\r')
    ||| c == ' '
    ||| c == '\u{85}'
    ||| c == '\u{a0}'
    ||| c == '\u{1680}'
    ||| ('\u{2000}' <= c <= '\u{200a}')
    ||| c == '\u{2028}'
    ||| c == '\u{2029}'
    ||| c == '\u{202f}'
    ||| c == '\u{205f}'
    ||| c == '\u{3000}'
}

/// Whether `s` holds white space only, so that trimming it leaves nothing.
pub open spec fn is_blank_spec(s: Seq<char>) -> bool {
    forall|i: int| 0 <= i < s.len() ==> is_whitespace_char(#[trigger] s[i])
}

fn is_whitespace(c: char) -> (r: bool)
    ensures
        r == is_whitespace_char(c),
{
    ('\t' <= c && c <= '\r') || c == ' ' || c == '\u{85}' || c == '\u{a0}' || c == '\u{1680}' || (
    '\u{2000}' <= c && c <= '\u{200a}') || c == '\u{2028}' || c == '\u{2029}' || c == '\u{202f}'
        || c == '\u{205f}' || c == '\u{3000}'
}

/// Whether `text` is empty once white space is trimmed from both ends.
pub fn is_blank(text: &str) -> (r: bool)
    ensures
        r == is_blank_spec(text@),
{
    let mut blank = true;
    for c in it: text.chars()
        invariant
            it.seq() == text@,
            blank == (forall|i: int| 0 <= i < it.index() ==> is_whitespace_char(#[trigger] text@[i])),
    {
        if !is_whitespace(c) {
            blank = false;
        }
    }
    blank
}

/// `s` with every leading copy of the non-empty pattern `p` removed, as `str::trim_start_matches`.
pub open spec fn trim_start_all(s: Seq<char>, p: Seq<char>) -> Seq<char>
    decreases s.len(),
{
    if p.len() > 0 && p.len() <= s.len() && s.take(p.len() as int) == p {
        trim_start_all(s.skip(p.len() as int), p)
    } else {
        s
    }
}

/// `s` with every trailing copy of the non-empty pattern `p` removed, as `str::trim_end_matches`.
pub open spec fn trim_end_all(s: Seq<char>, p: Seq<char>) -> Seq<char>
    decreases s.len(),
{
    if p.len() > 0 && p.len() <= s.len() && s.skip(s.len() - p.len()) == p {
        trim_end_all(s.take(s.len() - p.len()), p)
    } else {
        s
    }
}

/// Whether `s` has `p` at character position `at`.
fn has_at(s: &str, slen: usize, p: &str, plen: usize, at: usize) -> (r: bool)
    requires
        slen == s@.len(),
        plen == p@.len(),
        at + plen <= slen,
    ensures
        r == (s@.subrange(at as int, at + plen) == p@),
{
    let mut k: usize = 0;
    while k < plen
        invariant
            slen == s@.len(),
            plen == p@.len(),
            at + plen <= slen,
            k <= plen,
            forall|j: int| 0 <= j < k ==> s@[at + j] == p@[j],
        decreases plen - k,
    {
        if s.get_char(at + k) != p.get_char(k) {
            assert(s@.subrange(at as int, at + plen)[k as int] != p@[k as int]);
            return false;
        }
        k = k + 1;
    }
    assert(s@.subrange(at as int, at + plen) =~= p@);
    true
}

/// Removes every leading copy of `pat` from `text`.
pub fn trim_start_matches(text: &str, pat: &str) -> (r: String)
    ensures
        r@ == trim_start_all(text@, pat@),
{
    let plen = pat.unicode_len();
    let mut cur = String::from_str(text);
    if plen == 0 {
        return cur;
    }
    loop
        invariant
            plen == pat@.len(),
            plen > 0,
            trim_start_all(cur@, pat@) == trim_start_all(text@, pat@),
        decreases cur@.len(),
    {
        let clen = cur.as_str().unicode_len();
        if plen <= clen && has_at(cur.as_str(), clen, pat, plen, 0) {
            assert(cur@.subrange(0, plen as int) == cur@.take(plen as int));
            let next = String::from_str(cur.as_str().substring_char(plen, clen));
            assert(next@ =~= cur@.skip(plen as int));
            cur = next;
        } else {
            assert(plen <= clen ==> cur@.subrange(0, plen as int) == cur@.take(plen as int));
            return cur;
        }
    }
}

/// Removes every trailing copy of `pat` from `text`.
pub fn trim_end_matches(text: &str, pat: &str) -> (r: String)
    ensures
        r@ == trim_end_all(text@, pat@),
{
    let plen = pat.unicode_len();
    let mut cur = String::from_str(text);
    if plen == 0 {
        return cur;
    }
    loop
        invariant
            plen == pat@.len(),
            plen > 0,
            trim_end_all(cur@, pat@) == trim_end_all(text@, pat@),
        decreases cur@.len(),
    {
        let clen = cur.as_str().unicode_len();
        if plen <= clen && has_at(cur.as_str(), clen, pat, plen, clen - plen) {
            assert(cur@.subrange(clen - plen, clen as int) == cur@.skip(clen - plen));
            let next = String::from_str(cur.as_str().substring_char(0, clen - plen));
            assert(next@ =~= cur@.take(clen - plen));
            cur = next;
        } else {
            assert(plen <= clen ==> cur@.subrange(clen - plen, clen as int) == cur@.skip(clen - plen));
            return cur;
        }
    }
}

/// Whether `c` is an ASCII decimal digit.
pub open spec fn is_digit(c: char) -> bool {
    '0' <= c && c <= '9'
}

/// The number that the decimal digits `d` spell.
pub open spec fn digits_value(d: Seq<char>) -> nat
    decreases d.len(),
{
    if d.len() == 0 {
        0
    } else {
        digits_value(d.drop_last()) * 10 + ((d.last() as nat) - ('0' as nat)) as nat
    }
}

/// The digits of an unsigned number in its textual form: an optional `+` comes first.
pub open spec fn unsigned_digits(s: Seq<char>) -> Seq<char> {
    if s.len() > 0 && s[0] == '+' {
        s.drop_first()
    } else {
        s
    }
}

/// What `usize::from_str` gives for `s`: `None` unless `s` is an optional `+` followed by
/// one or more decimal digits whose value fits in a `usize`.
pub open spec fn parse_usize_spec(s: Seq<char>) -> Option<nat> {
    let d = unsigned_digits(s);
    if d.len() > 0 && (forall|i: int| 0 <= i < d.len() ==> is_digit(#[trigger] d[i]))
        && digits_value(d) <= usize::MAX {
        Some(digits_value(d))
    } else {
        None
    }
}

proof fn lemma_digits_value_grows(d: Seq<char>, k: int)
    requires
        0 <= k <= d.len(),
        forall|i: int| 0 <= i < d.len() ==> is_digit(#[trigger] d[i]),
    ensures
        digits_value(d.take(k)) <= digits_value(d),
    decreases d.len() - k,
{
    if k < d.len() {
        lemma_digits_value_grows(d, k + 1);
        assert(d.take(k + 1).drop_last() =~= d.take(k));
    } else {
        assert(d.take(k) =~= d);
    }
}

/// Reads `text` as an unsigned decimal number, as `usize::from_str` does.
pub fn parse_usize(text: &str) -> (r: Option<usize>)
    ensures
        r matches Some(v) ==> parse_usize_spec(text@) == Some(v as nat),
        r is None ==> parse_usize_spec(text@) is None,
{
    let len = text.unicode_len();
    let ghost d = unsigned_digits(text@);
    let start: usize = if len > 0 && text.get_char(0) == '+' { 1 } else { 0 };
    assert(d =~= text@.skip(start as int));
    if start >= len {
        return None;
    }
    let mut value: usize = 0;
    let mut i: usize = start;
    while i < len
        invariant
            len == text@.len(),
            d == text@.skip(start as int),
            start <= i <= len,
            start < len,
            forall|j: int| 0 <= j < i - start ==> is_digit(#[trigger] d[j]),
            value == digits_value(d.take(i - start)),
            d == unsigned_digits(text@),
        decreases len - i,
    {
        let c = text.get_char(i);
        assert(d[i - start] == c);
        if !('0' <= c && c <= '9') {
            assert(!is_digit(d[i - start]));
            assert(!(forall|j: int| 0 <= j < d.len() ==> is_digit(#[trigger] d[j])));
            assert(d == unsigned_digits(text@));
            assert(parse_usize_spec(text@) is None);
            return None;
        }
        let digit = (c as u32 - '0' as u32) as usize;
        assert(d.take(i + 1 - start).drop_last() =~= d.take(i - start));
        if value > (usize::MAX - digit) / 10 {
            proof {
                assert(digits_value(d.take(i + 1 - start)) > usize::MAX) by (nonlinear_arith)
                    requires
                        value > (usize::MAX - digit) / 10,
                        digits_value(d.take(i + 1 - start)) == value * 10 + digit,
                        digit <= 9,
                ;
                if forall|j: int| 0 <= j < d.len() ==> is_digit(#[trigger] d[j]) {
                    lemma_digits_value_grows(d, i + 1 - start);
                }
            }
            return None;
        }
        assert(value * 10 + digit <= usize::MAX) by (nonlinear_arith)
            requires
                value <= (usize::MAX - digit) / 10,
                digit <= 9,
        ;
        value = value * 10 + digit;
        i = i + 1;
    }
    assert(d.take(len - start) =~= d);
    Some(value)
}

/// The decimal digit character for `d < 10`.
pub open spec fn digit_char(d: nat) -> char {
    ((d + 48) as u32) as char
}

/// The decimal text of `n`, as `usize`'s `Display` writes it.
pub open spec fn decimal(n: nat) -> Seq<char>
    decreases n,
{
    if n < 10 {
        seq![digit_char(n)]
    } else {
        decimal(n / 10) + seq![digit_char(n % 10)]
    }
}

/// Writes `n` in decimal.
pub fn usize_to_decimal(n: usize) -> (r: String)
    ensures
        r@ == decimal(n as nat),
    decreases n,
{
    let digits = "0123456789";
    proof {
        reveal_strlit("0123456789");
    }
    let d = n % 10;
    let last = digits.substring_char(d, d + 1);
    assert(last@ =~= seq![digit_char(d as nat)]);
    if n < 10 {
        String::from_str(last)
    } else {
        let mut s = usize_to_decimal(n / 10);
        s.append(last);
        s
    }
}

proof fn lemma_decimal_digits(n: nat)
    ensures
        decimal(n).len() > 0,
        forall|i: int| 0 <= i < decimal(n).len() ==> is_digit(#[trigger] decimal(n)[i]),
        digits_value(decimal(n)) == n,
    decreases n,
{
    let d = decimal(n);
    if n < 10 {
        assert(digit_char(n) as nat == n + 48);
        assert(d.drop_last() =~= Seq::<char>::empty());
        assert(('0' as nat) == 48);
        assert(digits_value(d) == digits_value(d.drop_last()) * 10 + ((d.last() as nat) - ('0' as nat)) as nat);
    } else {
        lemma_decimal_digits(n / 10);
        assert(digit_char(n % 10) as nat == n % 10 + 48);
        assert(d.drop_last() =~= decimal(n / 10));
        assert(forall|i: int| 0 <= i < d.len() - 1 ==> d[i] == #[trigger] decimal(n / 10)[i]);
        assert((n / 10) * 10 + n % 10 == n) by (nonlinear_arith);
        assert(('0' as nat) == 48);
        assert(d.last() == digit_char(n % 10));
        assert(digits_value(d) == digits_value(d.drop_last()) * 10 + ((d.last() as nat) - ('0' as nat)) as nat);
    }
}

/// Reading back a written number: the decimal text of any `usize` value parses to that value.
pub proof fn law_decimal_read_back(n: nat)
    requires
        n <= usize::MAX,
    ensures
        parse_usize_spec(decimal(n)) == Some(n),
{
    lemma_decimal_digits(n);
    assert(decimal(n)[0] != '+');
    assert(unsigned_digits(decimal(n)) == decimal(n));
}

/// The pieces of `s` between the occurrences of `sep`, as `str::split` gives them.
pub open spec fn split_on(s: Seq<char>, sep: char) -> Seq<Seq<char>>
    decreases s.len(),
{
    if s.len() == 0 {
        seq![Seq::<char>::empty()]
    } else {
        let prev = split_on(s.drop_last(), sep);
        if s.last() == sep {
            prev.push(Seq::<char>::empty())
        } else {
            prev.update(prev.len() - 1, prev.last().push(s.last()))
        }
    }
}

/// Whether every character of `s` is ASCII.
pub open spec fn is_ascii_text(s: Seq<char>) -> bool {
    forall|i: int| 0 <= i < s.len() ==> (#[trigger] s[i] as u32) < 128
}

/// The pieces of a split of ASCII text are ASCII text.
pub proof fn lemma_split_on_ascii(s: Seq<char>, sep: char)
    requires
        is_ascii_text(s),
    ensures
        forall|k: int| 0 <= k < split_on(s, sep).len() ==> is_ascii_text(#[trigger] split_on(s, sep)[k]),
    decreases s.len(),
{
    if s.len() > 0 {
        let d = s.drop_last();
        assert(forall|i: int| 0 <= i < d.len() ==> d[i] == s[i]);
        lemma_split_on_ascii(d, sep);
        lemma_split_on_nonempty(d, sep);
        let prev = split_on(d, sep);
        if s.last() != sep {
            let last = prev.last().push(s.last());
            assert(is_ascii_text(prev[prev.len() - 1]));
            assert(is_ascii_text(last)) by {
                assert forall|i: int| 0 <= i < last.len() implies (#[trigger] last[i] as u32) < 128 by {
                    if i < last.len() - 1 {
                        assert(last[i] == prev[prev.len() - 1][i]);
                    } else {
                        assert(last[i] == s[s.len() - 1]);
                    }
                }
            }
            assert forall|k: int| 0 <= k < split_on(s, sep).len() implies is_ascii_text(
                #[trigger] split_on(s, sep)[k],
            ) by {
                if k < prev.len() - 1 {
                    assert(split_on(s, sep)[k] == prev[k]);
                }
            }
        } else {
            assert forall|k: int| 0 <= k < split_on(s, sep).len() implies is_ascii_text(
                #[trigger] split_on(s, sep)[k],
            ) by {
                if k < prev.len() {
                    assert(split_on(s, sep)[k] == prev[k]);
                } else {
                    assert(split_on(s, sep)[k] =~= Seq::<char>::empty());
                }
            }
        }
    }
}

/// Splitting any text gives at least one piece.
pub proof fn lemma_split_on_nonempty(s: Seq<char>, sep: char)
    ensures
        split_on(s, sep).len() >= 1,
    decreases s.len(),
{
    if s.len() > 0 {
        lemma_split_on_nonempty(s.drop_last(), sep);
    }
}

/// Splits `text` at every `sep`.
pub fn split_char(text: &str, sep: char) -> (r: Vec<String>)
    ensures
        strings_view(r@) == split_on(text@, sep),
{
    let len = text.unicode_len();
    let mut pieces: Vec<String> = Vec::new();
    let mut start: usize = 0;
    let mut i: usize = 0;
    assert(text@.take(0) =~= Seq::<char>::empty());
    assert(strings_view(pieces@).push(text@.subrange(0, 0)) =~= seq![Seq::<char>::empty()]);
    for c in it: text.chars()
        invariant
            it.seq() == text@,
            len == text@.len(),
            i == it.index(),
            start <= i,
            strings_view(pieces@).push(text@.subrange(start as int, i as int)) == split_on(
                text@.take(i as int),
                sep,
            ),
    {
        let ghost prev = split_on(text@.take(i as int), sep);
        proof {
            lemma_split_on_nonempty(text@.take(i as int), sep);
            assert(text@.take(i + 1).drop_last() =~= text@.take(i as int));
            assert(c == text@[i as int]);
            assert(text@.take(i + 1).last() == c);
        }
        if c == sep {
            let piece = String::from_str(text.substring_char(start, i));
            let ghost old_pieces = pieces@;
            pieces.push(piece);
            assert(strings_view(pieces@) =~= strings_view(old_pieces).push(piece@));
            assert(split_on(text@.take(i + 1), sep) == prev.push(Seq::<char>::empty()));
            start = i + 1;
            assert(text@.subrange(start as int, i + 1) =~= Seq::<char>::empty());
            assert(strings_view(pieces@).push(text@.subrange(start as int, i + 1)) =~= split_on(
                text@.take(i + 1),
                sep,
            ));
        } else {
            assert(split_on(text@.take(i + 1), sep) == prev.update(prev.len() - 1, prev.last().push(c)));
            assert(prev.last() == text@.subrange(start as int, i as int));
            assert(prev.len() == pieces@.len() + 1);
            assert(text@.subrange(start as int, i + 1) =~= text@.subrange(start as int, i as int).push(c));
            assert(prev.update(prev.len() - 1, prev.last().push(c)) =~= strings_view(pieces@).push(
                text@.subrange(start as int, i + 1),
            ));
            assert(strings_view(pieces@).push(text@.subrange(start as int, i + 1)) =~= split_on(
                text@.take(i + 1),
                sep,
            ));
        }
        i = i + 1;
    }
    let last = String::from_str(text.substring_char(start, len));
    pieces.push(last);
    assert(text@.take(len as int) =~= text@);
    assert(strings_view(pieces@) =~= split_on(text@, sep));
    pieces
}

/// Takes the string out of `s`, leaving it empty.
pub fn take_string(s: &mut String) -> (r: String)
    ensures
        r == *old(s),
        final(s)@ == Seq::<char>::empty(),
{
    let mut out = String::new();
    std::mem::swap(&mut out, s);
    out
}

/// Takes the string at `i` out of `v`, leaving it empty.
pub fn take_at(v: &mut Vec<String>, i: usize) -> (r: String)
    requires
        i < old(v)@.len(),
    ensures
        r == old(v)@[i as int],
        final(v)@.len() == old(v)@.len(),
        strings_view(final(v)@) == strings_view(old(v)@).update(i as int, Seq::<char>::empty()),
{
    let mut out = String::new();
    v.set_and_swap(i, &mut out);
    assert(strings_view(v@) =~= strings_view(old(v)@).update(i as int, Seq::<char>::empty()));
    out
}

/// Appends `s` to `v`.
pub fn push_string(v: &mut Vec<String>, s: String)
    ensures
        final(v)@.len() == old(v)@.len() + 1,
        strings_view(final(v)@) == strings_view(old(v)@).push(s@),
{
    v.push(s);
    assert(strings_view(v@) =~= strings_view(old(v)@).push(s@));
}

/// Puts `s` at `i` in `v`.
pub fn set_string(v: &mut Vec<String>, i: usize, s: String)
    requires
        i < old(v)@.len(),
    ensures
        final(v)@.len() == old(v)@.len(),
        strings_view(final(v)@) == strings_view(old(v)@).update(i as int, s@),
{
    v.set(i, s);
    assert(strings_view(v@) =~= strings_view(old(v)@).update(i as int, s@));
}

proof fn lemma_leading_of_restored(a: nat, t: Seq<char>, b: nat)
    requires
        t.len() > 0,
        t[0] != '\n',
    ensures
        leading_newline_count(newlines(a) + t + newlines(b)) == a,
{
    let s = newlines(a) + t + newlines(b);
    assert forall|i: int| 0 <= i < a implies s[i] == '\n' by {}
    assert(s[a as int] == t[0]);
    lemma_leading_count(s, a);
}

proof fn lemma_trailing_of_restored(a: nat, t: Seq<char>, b: nat)
    requires
        t.len() > 0,
        t.last() != '\n',
    ensures
        trailing_newline_count(newlines(a) + t + newlines(b)) == b,
{
    let s = newlines(a) + t + newlines(b);
    assert forall|i: int| s.len() - b <= i < s.len() implies s[i] == '\n' by {}
    assert(s[s.len() - b - 1] == t.last());
    lemma_trailing_count(s, b);
}

/// Putting back the newlines of `orig` around a translation that neither starts nor ends with
/// a newline gives a text that starts and ends with as many newlines as `orig`.
pub proof fn law_restored_newlines_match(orig: Seq<char>, t: Seq<char>)
    requires
        t.len() > 0,
        t[0] != '\n',
        t.last() != '\n',
    ensures
        leading_newline_count(
            newlines(leading_newline_count(orig)) + t + newlines(trailing_newline_count(orig)),
        ) == leading_newline_count(orig),
        trailing_newline_count(
            newlines(leading_newline_count(orig)) + t + newlines(trailing_newline_count(orig)),
        ) == trailing_newline_count(orig),
{
    lemma_leading_of_restored(leading_newline_count(orig), t, trailing_newline_count(orig));
    lemma_trailing_of_restored(leading_newline_count(orig), t, trailing_newline_count(orig));
}

/// The pieces joined back with `sep` between them.
pub open spec fn join_with(parts: Seq<Seq<char>>, sep: char) -> Seq<char>
    decreases parts.len(),
{
    if parts.len() <= 1 {
        if parts.len() == 1 {
            parts[0]
        } else {
            Seq::<char>::empty()
        }
    } else {
        join_with(parts.drop_last(), sep) + seq![sep] + parts.last()
    }
}

proof fn lemma_join_extend_last(parts: Seq<Seq<char>>, sep: char, c: char)
    requires
        parts.len() >= 1,
    ensures
        join_with(parts.update(parts.len() - 1, parts.last().push(c)), sep) == join_with(parts, sep).push(c),
{
    let q = parts.update(parts.len() - 1, parts.last().push(c));
    if parts.len() == 1 {
    } else {
        assert(q.drop_last() =~= parts.drop_last());
        assert(join_with(q, sep) == join_with(parts.drop_last(), sep) + seq![sep] + parts.last().push(c));
        assert(join_with(q, sep) =~= join_with(parts, sep).push(c));
    }
}

/// Joining the pieces of a split with the separator gives back the text, and no piece holds
/// the separator.
pub proof fn law_split_then_join(s: Seq<char>, sep: char)
    ensures
        join_with(split_on(s, sep), sep) == s,
        forall|k: int, j: int| 0 <= k < split_on(s, sep).len() && 0 <= j < split_on(s, sep)[k].len()
            ==> #[trigger] split_on(s, sep)[k][j] != sep,
    decreases s.len(),
{
    if s.len() == 0 {
        assert(join_with(seq![Seq::<char>::empty()], sep) == Seq::<char>::empty());
    } else {
        let prev = split_on(s.drop_last(), sep);
        law_split_then_join(s.drop_last(), sep);
        lemma_split_on_nonempty(s.drop_last(), sep);
        if s.last() == sep {
            assert(prev.push(Seq::<char>::empty()).drop_last() =~= prev);
            assert(join_with(prev.push(Seq::<char>::empty()), sep) =~= s);
            assert forall|k: int, j: int|
                0 <= k < split_on(s, sep).len() && 0 <= j < split_on(s, sep)[k].len() implies
                #[trigger] split_on(s, sep)[k][j] != sep by {
                assert(k < prev.len());
                assert(split_on(s, sep)[k] == prev[k]);
            }
        } else {
            lemma_join_extend_last(prev, sep, s.last());
            assert(s.drop_last().push(s.last()) =~= s);
            assert forall|k: int, j: int|
                0 <= k < split_on(s, sep).len() && 0 <= j < split_on(s, sep)[k].len() implies
                #[trigger] split_on(s, sep)[k][j] != sep by {
                if k < prev.len() - 1 {
                    assert(split_on(s, sep)[k] == prev[k]);
                } else {
                    assert(split_on(s, sep)[k] == prev.last().push(s.last()));
                    if j < prev.last().len() {
                        assert(prev[prev.len() - 1][j] != sep);
                    }
                }
            }
        }
    }
}

} // verus!
