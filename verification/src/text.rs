//! Text shaping for file names, thermal-printer lines and shell scripts.
use vstd::prelude::*;
use vstd::string::StringExecFns;
use crate::strings::{push_char, chars_of, string_from_chars};

verus! {

/// Characters kept unchanged in a file name: ASCII letters and digits,
/// `.`, `-` and `_`.
pub open spec fn is_file_name_char(c: char) -> bool {
    ('a' <= c && c <= 'z') || ('A' <= c && c <= 'Z') || ('0' <= c && c <= '9') || c == '.' || c
        == '-' || c == '_'
}

/// `name` with every other character replaced by `_`.
pub open spec fn sanitized(name: Seq<char>) -> Seq<char> {
    name.map_values(|c: char| if is_file_name_char(c) { c } else { '_' })
}

/// The file name used for `name`: its sanitised form, or `fallback` when
/// `name` is empty.
pub open spec fn safe_name(name: Seq<char>, fallback: Seq<char>) -> Seq<char> {
    if name.len() == 0 {
        fallback
    } else {
        sanitized(name)
    }
}

/// A character of the ASCII range.
pub open spec fn is_ascii_char(c: char) -> bool {
    (c as u32) < 128
}

/// The ASCII characters of `s`, in order.
pub open spec fn ascii_only(s: Seq<char>) -> Seq<char> {
    s.filter(ascii_pred())
}

pub open spec fn ascii_pred() -> spec_fn(char) -> bool {
    |c: char| is_ascii_char(c)
}

/// At most `width` leading characters of the ASCII text of `s`.
pub open spec fn fitted(s: Seq<char>, width: nat) -> Seq<char> {
    let p = ascii_only(s);
    if p.len() <= width {
        p
    } else {
        p.take(width as int)
    }
}

/// `n` spaces.
pub open spec fn spaces(n: nat) -> Seq<char> {
    Seq::new(n, |i: int| ' ')
}

/// The fitted text followed by spaces up to `width` characters.
pub open spec fn padded_right(s: Seq<char>, width: nat) -> Seq<char> {
    fitted(s, width) + spaces((width - fitted(s, width).len()) as nat)
}

/// Spaces up to `width` characters followed by the fitted text.
pub open spec fn padded_left(s: Seq<char>, width: nat) -> Seq<char> {
    spaces((width - fitted(s, width).len()) as nat) + fitted(s, width)
}

/// `s` with every single quote doubled.
pub open spec fn quotes_doubled(s: Seq<char>) -> Seq<char>
    decreases s.len(),
{
    if s.len() == 0 {
        seq![]
    } else if s.last() == '\'' {
        quotes_doubled(s.drop_last()) + seq!['\'', '\'']
    } else {
        quotes_doubled(s.drop_last()).push(s.last())
    }
}

/// Unicode `White_Space`, the set that `char::is_whitespace` tests.
pub open spec fn is_white_space(c: char) -> bool {
    let u = c as u32;
    (9 <= u && u <= 13) || u == 32 || u == 0x85 || u == 0xa0 || u == 0x1680 || (0x2000 <= u && u
        <= 0x200a) || u == 0x2028 || u == 0x2029 || u == 0x202f || u == 0x205f || u == 0x3000
}

/// Number of leading characters of `s` that satisfy `p`.
pub open spec fn run_len(s: Seq<char>, p: spec_fn(char) -> bool) -> nat
    decreases s.len(),
{
    if s.len() > 0 && p(s[0]) {
        1 + run_len(s.drop_first(), p)
    } else {
        0
    }
}

/// Number of trailing characters of `s` that satisfy `p`.
pub open spec fn back_run_len(s: Seq<char>, p: spec_fn(char) -> bool) -> nat
    decreases s.len(),
{
    if s.len() > 0 && p(s.last()) {
        1 + back_run_len(s.drop_last(), p)
    } else {
        0
    }
}

pub open spec fn white_pred() -> spec_fn(char) -> bool {
    |c: char| is_white_space(c)
}

/// `s` without its leading white space.
pub open spec fn trim_start(s: Seq<char>) -> Seq<char> {
    s.skip(run_len(s, white_pred()) as int)
}

/// `s` without leading and trailing white space (`str::trim`).
pub open spec fn trimmed(s: Seq<char>) -> Seq<char> {
    let t = trim_start(s);
    t.take(t.len() - back_run_len(t, white_pred()))
}

/// The decimal digit for `d < 10`.
pub open spec fn digit_char(d: nat) -> char {
    ((48 + d) as u8) as char
}

/// The decimal notation of `n`, without leading zeros.
pub open spec fn decimal(n: nat) -> Seq<char>
    decreases n,
{
    if n < 10 {
        seq![digit_char(n)]
    } else {
        decimal(n / 10).push(digit_char(n % 10))
    }
}

pub proof fn lemma_run_len(s: Seq<char>, p: spec_fn(char) -> bool, i: int)
    requires
        0 <= i <= s.len(),
        forall|j: int| 0 <= j < i ==> p(#[trigger] s[j]),
        i == s.len() || !p(s[i]),
    ensures
        run_len(s, p) == i,
    decreases i,
{
    if i > 0 {
        let t = s.drop_first();
        assert forall|j: int| 0 <= j < i - 1 implies p(#[trigger] t[j]) by {
            assert(t[j] == s[j + 1]);
        }
        assert(p(s[0]));
        lemma_run_len(t, p, i - 1);
    }
}

pub proof fn lemma_back_run_len(s: Seq<char>, p: spec_fn(char) -> bool, k: int)
    requires
        0 <= k <= s.len(),
        forall|j: int| s.len() - k <= j < s.len() ==> p(#[trigger] s[j]),
        k == s.len() || !p(s[s.len() - k - 1]),
    ensures
        back_run_len(s, p) == k,
    decreases k,
{
    if k > 0 {
        let t = s.drop_last();
        assert forall|j: int| t.len() - (k - 1) <= j < t.len() implies p(#[trigger] t[j]) by {
            assert(t[j] == s[j]);
        }
        assert(p(s[s.len() - 1]));
        if k - 1 < t.len() {
            assert(t[t.len() - (k - 1) - 1] == s[s.len() - k - 1]);
        }
        lemma_back_run_len(t, p, k - 1);
    }
}

/// Whether `c` is white space, as `char::is_whitespace` decides it.
pub fn is_whitespace_char(c: char) -> (r: bool)
    ensures
        r == is_white_space(c),
{
    let u = c as u32;
    (9 <= u && u <= 13) || u == 32 || u == 0x85 || u == 0xa0 || u == 0x1680 || (0x2000 <= u && u
        <= 0x200a) || u == 0x2028 || u == 0x2029 || u == 0x202f || u == 0x205f || u == 0x3000
}

/// The index range `[start, end)` of `chars` without leading and trailing
/// white space.
pub fn trim_bounds(chars: &Vec<char>) -> (r: (usize, usize))
    ensures
        r.0 <= r.1 <= chars.len(),
        chars@.subrange(r.0 as int, r.1 as int) == trimmed(chars@),
        r.0 == run_len(chars@, white_pred()),
{
    let ghost p = white_pred();
    let mut start: usize = 0;
    while start < chars.len() && is_whitespace_char(chars[start])
        invariant
            start <= chars.len(),
            forall|j: int| 0 <= j < start ==> is_white_space(#[trigger] chars@[j]),
        decreases chars.len() - start,
    {
        start += 1;
    }
    proof {
        lemma_run_len(chars@, p, start as int);
    }
    let mut end: usize = chars.len();
    while end > start && is_whitespace_char(chars[end - 1])
        invariant
            start <= end <= chars.len(),
            forall|j: int| end <= j < chars.len() ==> is_white_space(#[trigger] chars@[j]),
        decreases end,
    {
        end -= 1;
    }
    proof {
        let t = chars@.skip(start as int);
        let k = chars.len() - end;
        assert forall|j: int| t.len() - k <= j < t.len() implies p(#[trigger] t[j]) by {
            assert(t[j] == chars@[start + j]);
        }
        if k < t.len() {
            assert(t[t.len() - k - 1] == chars@[end - 1]);
        }
        lemma_back_run_len(t, p, k as int);
        assert(t.take(t.len() - k) =~= chars@.subrange(start as int, end as int));
    }
    (start, end)
}

/// `value` without leading and trailing white space (`str::trim`).
pub fn trim_text(value: &str) -> (r: String)
    ensures
        r@ == trimmed(value@),
{
    let chars = chars_of(value);
    let (start, end) = trim_bounds(&chars);
    string_from_chars(&chars, start, end)
}

/// A file name made safe for the file system: every character other than
/// ASCII letters, digits, `.`, `-` and `_` becomes `_`; an empty name is
/// replaced by `fallback`.
pub fn safe_file_name(file_name: &str, fallback: &str) -> (r: String)
    ensures
        r@ == safe_name(file_name@, fallback@),
{
    let mut cleaned = String::new();
    for c in it: file_name.chars()
        invariant
            it.seq() == file_name@,
            cleaned@ == sanitized(it.seq().take(it.index() as int)),
    {
        let kept = if ('a' <= c && c <= 'z') || ('A' <= c && c <= 'Z') || ('0' <= c && c <= '9')
            || c == '.' || c == '-' || c == '_' {
            c
        } else {
            '_'
        };
        let ghost before = it.seq().take(it.index() as int);
        push_char(&mut cleaned, kept);
        proof {
            let i = it.index();
            assert(it.seq().take(i + 1) =~= before.push(c));
            assert(sanitized(before.push(c)) =~= sanitized(before).push(kept));
        }
    }
    proof {
        assert(file_name@.take(file_name@.len() as int) =~= file_name@);
    }
    if cleaned.as_str().is_empty() {
        String::from_str(fallback)
    } else {
        cleaned
    }
}

/// The ASCII characters of `value`, in order.
pub fn plain_text(value: &str) -> (r: String)
    ensures
        r@ == ascii_only(value@),
{
    let mut out = String::new();
    proof {
        reveal_with_fuel(Seq::<_>::filter, 1);
        assert(value@.take(0) =~= Seq::<char>::empty());
    }
    for c in it: value.chars()
        invariant
            it.seq() == value@,
            out@ == ascii_only(it.seq().take(it.index() as int)),
    {
        let ghost before = it.seq().take(it.index() as int);
        if (c as u32) < 128 {
            push_char(&mut out, c);
        }
        proof {
            let i = it.index();
            assert(it.seq().take(i + 1) =~= before.push(c));
            before.lemma_filter_push(c, ascii_pred());
        }
    }
    proof {
        assert(value@.take(value@.len() as int) =~= value@);
    }
    out
}

/// At most `width` characters of the ASCII text of `value`.
pub fn fit_text(value: &str, width: usize) -> (r: String)
    ensures
        r@ == fitted(value@, width as nat),
{
    let plain = plain_text(value);
    let chars = chars_of(plain.as_str());
    let n = if chars.len() <= width {
        chars.len()
    } else {
        width
    };
    let r = string_from_chars(&chars, 0, n);
    proof {
        assert(chars@.subrange(0, chars@.len() as int) =~= chars@);
    }
    r
}

fn push_spaces(s: &mut String, n: usize)
    ensures
        final(s)@ == old(s)@ + spaces(n as nat),
{
    let mut i: usize = 0;
    while i < n
        invariant
            i <= n,
            s@ == old(s)@ + spaces(i as nat),
        decreases n - i,
    {
        push_char(s, ' ');
        assert(spaces((i + 1) as nat) =~= spaces(i as nat).push(' '));
        i += 1;
    }
}

/// The fitted text of `value`, left-aligned in a field of `width` characters.
pub fn pad_right(value: &str, width: usize) -> (r: String)
    ensures
        r@ == padded_right(value@, width as nat),
{
    let mut fitted_text = fit_text(value, width);
    let n = chars_of(fitted_text.as_str()).len();
    push_spaces(&mut fitted_text, width - n);
    fitted_text
}

/// The fitted text of `value`, right-aligned in a field of `width` characters.
pub fn pad_left(value: &str, width: usize) -> (r: String)
    ensures
        r@ == padded_left(value@, width as nat),
{
    let fitted_text = fit_text(value, width);
    let n = chars_of(fitted_text.as_str()).len();
    let mut out = String::new();
    push_spaces(&mut out, width - n);
    out.append(fitted_text.as_str());
    proof {
        assert(Seq::<char>::empty() + spaces((width - n) as nat) =~= spaces((width - n) as nat));
    }
    out
}

/// `value` with every single quote doubled, as a PowerShell single-quoted
/// string needs it.
pub fn escape_powershell_single(value: &str) -> (r: String)
    ensures
        r@ == quotes_doubled(value@),
{
    let mut out = String::new();
    for c in it: value.chars()
        invariant
            it.seq() == value@,
            out@ == quotes_doubled(it.seq().take(it.index() as int)),
    {
        let ghost before = it.seq().take(it.index() as int);
        push_char(&mut out, c);
        if c == '\'' {
            push_char(&mut out, '\'');
        }
        proof {
            let i = it.index();
            assert(it.seq().take(i + 1) =~= before.push(c));
            assert(before.push(c).drop_last() =~= before);
        }
    }
    proof {
        assert(value@.take(value@.len() as int) =~= value@);
    }
    out
}

/// The decimal notation of `n`.
pub fn decimal_string(n: u64) -> (r: String)
    ensures
        r@ == decimal(n as nat),
    decreases n,
{
    let digit = ((n % 10) as u8 + 48) as char;
    if n < 10 {
        let mut s = String::new();
        push_char(&mut s, digit);
        s
    } else {
        let mut s = decimal_string(n / 10);
        push_char(&mut s, digit);
        s
    }
}

} // verus!

verus! {

/// The file names made by [`safe_file_name`] hold only ASCII letters,
/// digits, `.`, `-` and `_` (provided the fallback does), a non-empty name
/// keeps its length, and making a safe name safe again changes nothing.
pub proof fn lemma_safe_name_is_safe(name: Seq<char>, fallback: Seq<char>)
    requires
        forall|i: int| 0 <= i < fallback.len() ==> is_file_name_char(#[trigger] fallback[i]),
    ensures
        forall|i: int|
            0 <= i < safe_name(name, fallback).len() ==> is_file_name_char(
                #[trigger] safe_name(name, fallback)[i],
            ),
        name.len() > 0 ==> safe_name(name, fallback).len() == name.len(),
        safe_name(safe_name(name, fallback), fallback) == safe_name(name, fallback),
{
    let r = safe_name(name, fallback);
    assert forall|i: int| 0 <= i < r.len() implies is_file_name_char(#[trigger] r[i]) by {
        if name.len() > 0 {
            assert(r[i] == (if is_file_name_char(name[i]) { name[i] } else { '_' }));
        }
    }
    if r.len() > 0 {
        assert(sanitized(r) =~= r);
    } else {
        assert(r =~= fallback || r.len() == 0);
        if fallback.len() > 0 {
            assert(sanitized(fallback) =~= fallback);
        }
    }
}

proof fn lemma_ascii_only_push(s: Seq<char>, c: char)
    ensures
        ascii_only(s.push(c)) == if is_ascii_char(c) {
            ascii_only(s).push(c)
        } else {
            ascii_only(s)
        },
{
    s.lemma_filter_push(c, ascii_pred());
}

/// The text kept by [`plain_text`] is all ASCII, and filtering it again
/// changes nothing.
pub proof fn lemma_ascii_only_is_ascii(s: Seq<char>)
    ensures
        forall|i: int| 0 <= i < ascii_only(s).len() ==> is_ascii_char(#[trigger] ascii_only(s)[i]),
        ascii_only(ascii_only(s)) == ascii_only(s),
    decreases s.len(),
{
    if s.len() == 0 {
        reveal_with_fuel(Seq::<_>::filter, 1);
        assert(ascii_only(s) =~= Seq::<char>::empty());
    } else {
        let init = s.drop_last();
        let c = s.last();
        lemma_ascii_only_is_ascii(init);
        assert(init.push(c) =~= s);
        lemma_ascii_only_push(init, c);
        let a = ascii_only(init);
        if is_ascii_char(c) {
            lemma_ascii_only_push(a, c);
            assert forall|i: int| 0 <= i < ascii_only(s).len() implies is_ascii_char(
                #[trigger] ascii_only(s)[i],
            ) by {
                if i < a.len() {
                    assert(ascii_only(s)[i] == a[i]);
                }
            }
        }
    }
}

/// A fitted text has at most `width` characters, and a padded one exactly
/// `width`, whichever side the padding goes.
pub proof fn lemma_padded_width(s: Seq<char>, width: nat)
    ensures
        fitted(s, width).len() <= width,
        padded_right(s, width).len() == width,
        padded_left(s, width).len() == width,
        padded_right(s, width).take(fitted(s, width).len() as int) == fitted(s, width),
{
    assert(padded_right(s, width).take(fitted(s, width).len() as int) =~= fitted(s, width));
}

/// Reading a PowerShell single-quoted string body: a doubled quote stands
/// for one quote.
pub open spec fn single_quoted_reading(t: Seq<char>) -> Seq<char>
    decreases t.len(),
{
    if t.len() == 0 {
        seq![]
    } else if t.len() >= 2 && t.last() == '\'' && t[t.len() - 2] == '\'' {
        single_quoted_reading(t.drop_last().drop_last()).push('\'')
    } else {
        single_quoted_reading(t.drop_last()).push(t.last())
    }
}

/// Escaping for a single-quoted PowerShell string loses nothing: reading
/// the escaped text back gives the original.
pub proof fn lemma_quotes_doubled_reads_back(s: Seq<char>)
    ensures
        single_quoted_reading(quotes_doubled(s)) == s,
    decreases s.len(),
{
    if s.len() > 0 {
        let init = s.drop_last();
        let c = s.last();
        lemma_quotes_doubled_reads_back(init);
        let q = quotes_doubled(s);
        if c == '\'' {
            assert(q.drop_last().drop_last() =~= quotes_doubled(init));
        } else {
            assert(q.drop_last() =~= quotes_doubled(init));
        }
        assert(init.push(c) =~= s);
    } else {
        assert(s =~= Seq::<char>::empty());
    }
}

/// The number written by decimal digits.
pub open spec fn digits_value(s: Seq<char>) -> int
    decreases s.len(),
{
    if s.len() == 0 {
        0
    } else {
        digits_value(s.drop_last()) * 10 + ((s.last() as u32) - 48)
    }
}

/// [`decimal_string`] writes only the digits `0`–`9`, and they read back
/// as the number written.
pub proof fn lemma_decimal_reads_back(n: nat)
    ensures
        digits_value(decimal(n)) == n,
        forall|i: int| 0 <= i < decimal(n).len() ==> '0' <= #[trigger] decimal(n)[i] <= '9',
    decreases n,
{
    let d = digit_char(n % 10);
    assert((((48 + n % 10) as u8) as char) as u32 == 48 + n % 10);
    assert(d as u32 == 48 + n % 10);
    if n < 10 {
        assert(decimal(n).drop_last() =~= Seq::<char>::empty());
        assert(decimal(n).last() == d);
        assert(digits_value(decimal(n)) == digits_value(decimal(n).drop_last()) * 10 + ((d as u32) - 48));
        assert(n % 10 == n);
    }
    if n >= 10 {
        assert(decimal(n).last() == d);
        assert((n / 10) * 10 + n % 10 == n);
        lemma_decimal_reads_back(n / 10);
        let s = decimal(n);
        assert(s.drop_last() =~= decimal(n / 10));
        assert(digits_value(s) == digits_value(s.drop_last()) * 10 + ((s.last() as u32) - 48));
        assert(digits_value(s.drop_last()) == n / 10);
        assert(digits_value(s) == (n / 10) * 10 + n % 10);
        assert forall|i: int| 0 <= i < s.len() implies '0' <= #[trigger] s[i] <= '9' by {
            if i < s.len() - 1 {
                assert(s[i] == decimal(n / 10)[i]);
            }
        }
    }
}

proof fn lemma_run_len_stops(s: Seq<char>, p: spec_fn(char) -> bool)
    ensures
        run_len(s, p) <= s.len(),
        forall|j: int| 0 <= j < run_len(s, p) ==> p(#[trigger] s[j]),
        run_len(s, p) < s.len() ==> !p(s[run_len(s, p) as int]),
    decreases s.len(),
{
    if s.len() > 0 && p(s[0]) {
        let t = s.drop_first();
        lemma_run_len_stops(t, p);
        assert forall|j: int| 0 <= j < run_len(s, p) implies p(#[trigger] s[j]) by {
            if j > 0 {
                assert(s[j] == t[j - 1]);
            }
        }
        if run_len(s, p) < s.len() {
            assert(s[run_len(s, p) as int] == t[run_len(t, p) as int]);
        }
    }
}

proof fn lemma_back_run_len_stops(s: Seq<char>, p: spec_fn(char) -> bool)
    ensures
        back_run_len(s, p) <= s.len(),
        back_run_len(s, p) < s.len() ==> !p(s[s.len() - back_run_len(s, p) - 1]),
    decreases s.len(),
{
    if s.len() > 0 && p(s.last()) {
        let t = s.drop_last();
        lemma_back_run_len_stops(t, p);
        if back_run_len(s, p) < s.len() {
            assert(s[s.len() - back_run_len(s, p) - 1] == t[t.len() - back_run_len(t, p) - 1]);
        }
    }
}

/// A trimmed text neither starts nor ends with white space, so trimming it
/// again changes nothing.
pub proof fn lemma_trimmed_is_trimmed(s: Seq<char>)
    ensures
        trimmed(s).len() > 0 ==> !is_white_space(trimmed(s)[0]) && !is_white_space(
            trimmed(s).last(),
        ),
        trimmed(trimmed(s)) == trimmed(s),
{
    let p = white_pred();
    let t = trim_start(s);
    lemma_run_len_stops(s, p);
    lemma_back_run_len_stops(t, p);
    let r = trimmed(s);
    let b = back_run_len(t, p);
    if r.len() > 0 {
        assert(r[0] == t[0]);
        assert(t[0] == s[run_len(s, p) as int]);
        assert(r.last() == t[t.len() - b - 1]);
        lemma_run_len(r, p, 0);
        lemma_back_run_len(r, p, 0);
        assert(r.skip(0) =~= r);
        assert(r.take(r.len() as int) =~= r);
    } else {
        assert(r =~= Seq::<char>::empty());
        assert(trimmed(r) =~= Seq::<char>::empty());
    }
}

} // verus!

verus! {

/// What a safe file name is, character by character: an empty name gives
/// the fallback; otherwise the name keeps its length, every ASCII letter,
/// digit, `.`, `-` and `_` stays at its position, and every other
/// character becomes `_`. So a name made only of those characters is
/// returned unchanged.
pub proof fn lemma_safe_name_by_character(name: Seq<char>, fallback: Seq<char>)
    ensures
        name.len() == 0 ==> safe_name(name, fallback) == fallback,
        name.len() > 0 ==> safe_name(name, fallback).len() == name.len(),
        name.len() > 0 ==> forall|i: int|
            0 <= i < name.len() ==> #[trigger] safe_name(name, fallback)[i] == if ('a' <= name[i]
                && name[i] <= 'z') || ('A' <= name[i] && name[i] <= 'Z') || ('0' <= name[i]
                && name[i] <= '9') || name[i] == '.' || name[i] == '-' || name[i] == '_' {
                name[i]
            } else {
                '_'
            },
        (forall|i: int|
            0 <= i < name.len() ==> ('a' <= #[trigger] name[i] && name[i] <= 'z') || ('A'
                <= name[i] && name[i] <= 'Z') || ('0' <= name[i] && name[i] <= '9') || name[i]
                == '.' || name[i] == '-' || name[i] == '_') && name.len() > 0 ==> safe_name(
            name,
            fallback,
        ) == name,
{
    if name.len() > 0 {
        if forall|i: int|
            0 <= i < name.len() ==> ('a' <= #[trigger] name[i] && name[i] <= 'z') || ('A'
                <= name[i] && name[i] <= 'Z') || ('0' <= name[i] && name[i] <= '9') || name[i]
                == '.' || name[i] == '-' || name[i] == '_' {
            assert(safe_name(name, fallback) =~= name);
        }
    }
}

/// What [`plain_text`] keeps: exactly the characters whose code is below
/// 128, in their order. Each character of the text is kept when its code
/// is below 128 and dropped otherwise, so a text that is all ASCII comes
/// back unchanged.
pub proof fn lemma_plain_text_keeps_ascii(s: Seq<char>, c: char)
    ensures
        ascii_only(Seq::<char>::empty()) == Seq::<char>::empty(),
        (c as u32) < 128 ==> ascii_only(s.push(c)) == ascii_only(s).push(c),
        (c as u32) >= 128 ==> ascii_only(s.push(c)) == ascii_only(s),
        (forall|i: int| 0 <= i < s.len() ==> (#[trigger] s[i] as u32) < 128) ==> ascii_only(s)
            == s,
    decreases s.len(),
{
    reveal_with_fuel(Seq::<_>::filter, 1);
    lemma_ascii_only_push(s, c);
    if forall|i: int| 0 <= i < s.len() ==> (#[trigger] s[i] as u32) < 128 {
        if s.len() > 0 {
            let init = s.drop_last();
            assert forall|i: int| 0 <= i < init.len() implies (#[trigger] init[i] as u32) < 128 by {
                assert(init[i] == s[i]);
            }
            lemma_plain_text_keeps_ascii(init, s.last());
            assert(init.push(s.last()) =~= s);
            assert((s[s.len() - 1] as u32) < 128);
        } else {
            assert(s =~= Seq::<char>::empty());
        }
    }
}

/// What fitting and padding do: the fitted text is the first
/// `min(width, n)` characters of the ASCII text (`n` its length); padding
/// to the right adds spaces after it, padding to the left puts spaces
/// before it, up to exactly `width` characters.
pub proof fn lemma_fit_and_pad(s: Seq<char>, width: nat)
    ensures
        fitted(s, width).len() == if ascii_only(s).len() <= width {
            ascii_only(s).len()
        } else {
            width
        },
        forall|i: int| 0 <= i < fitted(s, width).len() ==> #[trigger] fitted(s, width)[i] == ascii_only(s)[i],
        padded_right(s, width).len() == width,
        padded_left(s, width).len() == width,
        forall|i: int|
            0 <= i < width ==> #[trigger] padded_right(s, width)[i] == if i < fitted(s, width).len() {
                fitted(s, width)[i]
            } else {
                ' '
            },
        forall|i: int|
            0 <= i < width ==> #[trigger] padded_left(s, width)[i] == if i < width - fitted(s, width).len() {
                ' '
            } else {
                fitted(s, width)[i - (width - fitted(s, width).len())]
            },
{
}

} // verus!
