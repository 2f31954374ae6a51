use vstd::prelude::*;

verus! {

/// A character with the Unicode `White_Space` property: what trimming a
/// console answer removes at either end.
pub open spec fn is_space(c: char) -> bool {
    ||| c == ' '
    ||| c == '\t'
    ||| c == '\n'
    ||| c == '\u{b}'
    ||| c == '\u{c}'
    ||| c == '\r'
    ||| c == '\u{85}'
    ||| c == '\u{a0}'
    ||| c == '\u{1680}'
    ||| (0x2000 <= c as u32 && c as u32 <= 0x200a)
    ||| c == '\u{2028}'
    ||| c == '\u{2029}'
    ||| c == '\u{202f}'
    ||| c == '\u{205f}'
    ||| c == '\u{3000}'
}

fn is_space_char(c: char) -> (b: bool)
    ensures
        b == is_space(c),
{
    c == ' ' || c == '\t' || c == '\n' || c == '\u{b}' || c == '\u{c}' || c == '\r'
        || c == '\u{85}' || c == '\u{a0}' || c == '\u{1680}'
        || (0x2000 <= c as u32 && c as u32 <= 0x200a)
        || c == '\u{2028}' || c == '\u{2029}' || c == '\u{202f}' || c == '\u{205f}'
        || c == '\u{3000}'
}

/// The sequence without its leading white space.
pub open spec fn trim_start_spec(s: Seq<char>) -> Seq<char>
    decreases s.len(),
{
    if s.len() > 0 && is_space(s[0]) {
        trim_start_spec(s.drop_first())
    } else {
        s
    }
}

/// The sequence without its trailing white space.
pub open spec fn trim_end_spec(s: Seq<char>) -> Seq<char>
    decreases s.len(),
{
    if s.len() > 0 && is_space(s.last()) {
        trim_end_spec(s.drop_last())
    } else {
        s
    }
}

/// The sequence without leading and trailing white space.
pub open spec fn trim_spec(s: Seq<char>) -> Seq<char> {
    trim_end_spec(trim_start_spec(s))
}

proof fn lemma_trim_start_at(s: Seq<char>, j: int)
    requires
        0 <= j <= s.len(),
        forall|k: int| 0 <= k < j ==> is_space(s[k]),
        j < s.len() ==> !is_space(s[j]),
    ensures
        trim_start_spec(s) == s.subrange(j, s.len() as int),
    decreases j,
{
    if j == 0 {
        assert(s.subrange(0, s.len() as int) =~= s);
    } else {
        let d = s.drop_first();
        assert(forall|k: int| 0 <= k < j - 1 ==> is_space(d[k]));
        lemma_trim_start_at(d, j - 1);
        assert(d.subrange(j - 1, d.len() as int) =~= s.subrange(j, s.len() as int));
    }
}

proof fn lemma_trim_end_at(s: Seq<char>, j: int)
    requires
        0 <= j <= s.len(),
        forall|k: int| j <= k < s.len() ==> is_space(s[k]),
        j > 0 ==> !is_space(s[j - 1]),
    ensures
        trim_end_spec(s) == s.subrange(0, j),
    decreases s.len() - j,
{
    if j == s.len() {
        assert(s.subrange(0, j) =~= s);
    } else {
        let d = s.drop_last();
        assert(is_space(s.last()));
        assert(forall|k: int| j <= k < d.len() ==> is_space(d[k]));
        lemma_trim_end_at(d, j);
        assert(d.subrange(0, j) =~= s.subrange(0, j));
    }
}

/// Removes leading and trailing white space from a console answer.
pub fn trim_str(s: &str) -> (r: String)
    ensures
        r@ == trim_spec(s@),
{
    let n = s.unicode_len();
    let mut start: usize = 0;
    while start < n && is_space_char(s.get_char(start))
        invariant
            n == s@.len(),
            0 <= start <= n,
            forall|k: int| 0 <= k < start ==> is_space(s@[k]),
        decreases n - start,
    {
        start = start + 1;
    }
    let mut end: usize = n;
    while end > start && is_space_char(s.get_char(end - 1))
        invariant
            n == s@.len(),
            start <= end <= n,
            forall|k: int| end <= k < n ==> is_space(s@[k]),
        decreases end,
    {
        end = end - 1;
    }
    proof {
        lemma_trim_start_at(s@, start as int);
        let t = s@.subrange(start as int, n as int);
        lemma_trim_end_at(t, end - start);
        assert(t.subrange(0, end - start) =~= s@.subrange(start as int, end as int));
    }
    s.substring_char(start, end).to_owned()
}

/// A decimal digit.
pub open spec fn is_digit(c: char) -> bool {
    '0' as u32 <= c as u32 && c as u32 <= '9' as u32
}

/// The value of one decimal digit.
pub open spec fn digit_val(c: char) -> int {
    c as u32 - '0' as u32
}

/// Every character of the sequence is a decimal digit.
pub open spec fn all_digits(s: Seq<char>) -> bool {
    forall|i: int| 0 <= i < s.len() ==> is_digit(s[i])
}

/// The digits proper of a written number: an optional leading plus sign is
/// dropped, as the standard unsigned parse accepts one.
pub open spec fn number_body(s: Seq<char>) -> Seq<char> {
    if s.len() > 0 && s[0] == '+' {
        s.drop_first()
    } else {
        s
    }
}

/// The sequence is a written unsigned number: at least one digit, all
/// characters after the optional sign digits.
pub open spec fn is_numeric(s: Seq<char>) -> bool {
    number_body(s).len() > 0 && all_digits(number_body(s))
}

/// The value of a sequence of decimal digits, most significant first.
pub open spec fn digits_val(s: Seq<char>) -> int
    decreases s.len(),
{
    if s.len() == 0 {
        0
    } else {
        digits_val(s.drop_last()) * 10 + digit_val(s.last())
    }
}

proof fn lemma_digits_val_nonneg(s: Seq<char>)
    requires
        all_digits(s),
    ensures
        digits_val(s) >= 0,
    decreases s.len(),
{
    if s.len() > 0 {
        let d = s.drop_last();
        assert(forall|i: int| 0 <= i < d.len() ==> is_digit(d[i]));
        lemma_digits_val_nonneg(d);
    }
}

proof fn lemma_digits_val_prefix(s: Seq<char>, m: int)
    requires
        all_digits(s),
        0 <= m <= s.len(),
    ensures
        digits_val(s.subrange(0, m)) <= digits_val(s),
    decreases s.len() - m,
{
    if m == s.len() {
        assert(s.subrange(0, m) =~= s);
    } else {
        let d = s.drop_last();
        assert(forall|i: int| 0 <= i < d.len() ==> is_digit(d[i]));
        assert(d.subrange(0, m) =~= s.subrange(0, m));
        lemma_digits_val_prefix(d, m);
        lemma_digits_val_nonneg(d);
        assert(is_digit(s.last()));
        assert(digits_val(d) * 10 + digit_val(s.last()) >= digits_val(d));
    }
}

/// Reads an unsigned decimal number, as the standard parse of an unsigned
/// machine integer does: an optional leading plus sign, then at least one
/// digit, and the value must fit. Returns `None` on anything else.
pub fn parse_index(s: &str) -> (r: Option<usize>)
    ensures
        r is Some <==> is_numeric(s@) && digits_val(number_body(s@)) <= usize::MAX,
        r matches Some(v) ==> v as int == digits_val(number_body(s@)),
{
    let n = s.unicode_len();
    let mut i: usize = 0;
    if n > 0 && s.get_char(0) == '+' {
        i = 1;
    }
    let ghost body = number_body(s@);
    proof {
        assert(body =~= s@.subrange(i as int, n as int));
    }
    if i >= n {
        return None;
    }
    let start = i;
    let mut val: usize = 0;
    while i < n
        invariant
            n == s@.len(),
            start <= i <= n,
            body == number_body(s@),
            body == s@.subrange(start as int, n as int),
            all_digits(body.subrange(0, i - start)),
            val as int == digits_val(body.subrange(0, i - start)),
        decreases n - i,
    {
        let c = s.get_char(i);
        let cu = c as u32;
        if cu < 48 || cu > 57 {
            proof {
                assert(body[i - start] == c);
                assert(!is_digit(body[i - start]));
                assert(!all_digits(body));
                assert(!is_numeric(s@));
            }
            return None;
        }
        let d: usize = (cu - 48) as usize;
        if val > (usize::MAX - d) / 10 {
            proof {
                let p = body.subrange(0, i + 1 - start);
                assert(p.drop_last() =~= body.subrange(0, i - start));
                assert(p.last() == body[i - start] && body[i - start] == c);
                assert(digits_val(p) == val * 10 + d);
                assert(((usize::MAX - d) / 10) * 10 + (usize::MAX - d) % 10 == usize::MAX - d);
                assert(val * 10 >= ((usize::MAX - d) / 10) * 10 + 10);
                assert(digits_val(p) > usize::MAX);
                if all_digits(body) {
                    lemma_digits_val_prefix(body, i + 1 - start);
                    assert(digits_val(body) > usize::MAX);
                } else {
                    assert(!is_numeric(s@));
                }
                assert(!(is_numeric(s@) && digits_val(number_body(s@)) <= usize::MAX));
            }
            return None;
        }
        proof {
            assert(val <= (usize::MAX - d) / 10);
            assert(val * 10 <= ((usize::MAX - d) / 10) * 10);
            assert(((usize::MAX - d) / 10) * 10 + (usize::MAX - d) % 10 == usize::MAX - d);
            assert(val * 10 + d <= usize::MAX);
            let p = body.subrange(0, i + 1 - start);
            assert(p.drop_last() =~= body.subrange(0, i - start));
            assert(p.last() == body[i - start] && body[i - start] == c);
            assert forall|k: int| 0 <= k < p.len() implies is_digit(#[trigger] p[k]) by {
                if k < i - start {
                    assert(p[k] == body.subrange(0, i - start)[k]);
                } else {
                    assert(p[k] == c);
                }
            }
        }
        val = val * 10 + d;
        i = i + 1;
    }
    proof {
        assert(body.subrange(0, n - start) =~= body);
    }
    Some(val)
}

} // verus!
