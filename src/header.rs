//! Reading the `Authorization` header and the subject of a bearer token.

use vstd::prelude::*;
use vstd::string::StrSliceExecFns;
use crate::auth::VerifyTokenData;

verus! {

/// The characters with Unicode's White_Space property.
pub open spec fn white_space(c: char) -> bool {
    let u = c as u32;
    (0x9 <= u <= 0xd) || u == 0x20 || u == 0x85 || u == 0xa0 || u == 0x1680 || (0x2000 <= u
        <= 0x200a) || u == 0x2028 || u == 0x2029 || u == 0x202f || u == 0x205f || u == 0x3000
}

/// Whether `c` is white space in Unicode's sense, as `char::is_whitespace`
/// has it.
pub fn is_white_space(c: char) -> (r: bool)
    ensures
        r == white_space(c),
{
    let u = c as u32;
    (0x9 <= u && u <= 0xd) || u == 0x20 || u == 0x85 || u == 0xa0 || u == 0x1680 || (0x2000 <= u
        && u <= 0x200a) || u == 0x2028 || u == 0x2029 || u == 0x202f || u == 0x205f || u == 0x3000
}

/// The maximal runs of non-white-space characters of `s`, in order.
pub open spec fn words(s: Seq<char>) -> Seq<Seq<char>>
    decreases s.len(),
{
    if s.len() == 0 {
        Seq::empty()
    } else {
        let w = words(s.drop_last());
        let c = s.last();
        if white_space(c) {
            w
        } else if s.len() >= 2 && !white_space(s[s.len() - 2]) {
            w.update(w.len() - 1, w.last().push(c))
        } else {
            w.push(seq![c])
        }
    }
}

/// The pieces of `s` between commas, in order; there is always one more
/// piece than there are commas.
pub open spec fn fields(s: Seq<char>) -> Seq<Seq<char>>
    decreases s.len(),
{
    if s.len() == 0 {
        seq![Seq::empty()]
    } else {
        let f = fields(s.drop_last());
        if s.last() == ',' {
            f.push(Seq::empty())
        } else {
            f.update(f.len() - 1, f.last().push(s.last()))
        }
    }
}

proof fn lemma_fields_nonempty(s: Seq<char>)
    ensures
        fields(s).len() >= 1,
    decreases s.len(),
{
    if s.len() > 0 {
        lemma_fields_nonempty(s.drop_last());
    }
}

/// Where `s`'s words start and end: each span `(a, b)` gives the word
/// `s[a..b]`.
fn word_spans(s: &str) -> (r: Vec<(usize, usize)>)
    ensures
        r@.len() == words(s@).len(),
        forall|k: int|
            0 <= k < r@.len() ==> (#[trigger] r@[k]).0 <= r@[k].1 <= s@.len() && s@.subrange(
                r@[k].0 as int,
                r@[k].1 as int,
            ) == words(s@)[k],
{
    let n = s.unicode_len();
    let mut spans: Vec<(usize, usize)> = Vec::new();
    let mut i: usize = 0;
    while i < n
        invariant
            n == s@.len(),
            0 <= i <= n,
            spans@.len() == words(s@.subrange(0, i as int)).len(),
            forall|k: int|
                0 <= k < spans@.len() ==> (#[trigger] spans@[k]).0 <= spans@[k].1 <= i
                    && s@.subrange(spans@[k].0 as int, spans@[k].1 as int) == words(
                    s@.subrange(0, i as int),
                )[k],
            i > 0 && !white_space(s@[i - 1]) ==> spans@.len() > 0 && spans@.last().1 == i,
        decreases n - i,
    {
        let c = s.get_char(i);
        let ghost pre = s@.subrange(0, i as int);
        let ghost cur = s@.subrange(0, i + 1);
        proof {
            assert(cur.drop_last() =~= pre);
            assert(cur.last() == c);
        }
        if is_white_space(c) {
        } else if i > 0 && !is_white_space(s.get_char(i - 1)) {
            let last = spans.len() - 1;
            let (a, _) = spans[last];
            spans.set(last, (a, i + 1));
            proof {
                assert(cur[cur.len() - 2] == s@[i - 1]);
                assert(s@.subrange(a as int, i + 1) =~= s@.subrange(a as int, i as int).push(c));
            }
        } else {
            spans.push((i, i + 1));
            proof {
                assert(s@.subrange(i as int, i + 1) =~= seq![c]);
                if i > 0 {
                    assert(cur[cur.len() - 2] == s@[i - 1]);
                }
            }
        }
        i += 1;
    }
    proof {
        assert(s@.subrange(0, n as int) =~= s@);
    }
    spans
}

/// Where `s`'s comma-separated fields start and end: each span `(a, b)`
/// gives the field `s[a..b]`.
fn field_spans(s: &str) -> (r: Vec<(usize, usize)>)
    ensures
        r@.len() == fields(s@).len(),
        forall|k: int|
            0 <= k < r@.len() ==> (#[trigger] r@[k]).0 <= r@[k].1 <= s@.len() && s@.subrange(
                r@[k].0 as int,
                r@[k].1 as int,
            ) == fields(s@)[k],
{
    let n = s.unicode_len();
    let mut spans: Vec<(usize, usize)> = Vec::new();
    spans.push((0, 0));
    proof {
        assert(s@.subrange(0, 0) =~= Seq::<char>::empty());
    }
    let mut i: usize = 0;
    while i < n
        invariant
            n == s@.len(),
            0 <= i <= n,
            spans@.len() == fields(s@.subrange(0, i as int)).len(),
            spans@.len() > 0,
            spans@.last().1 == i,
            forall|k: int|
                0 <= k < spans@.len() ==> (#[trigger] spans@[k]).0 <= spans@[k].1 <= i
                    && s@.subrange(spans@[k].0 as int, spans@[k].1 as int) == fields(
                    s@.subrange(0, i as int),
                )[k],
        decreases n - i,
    {
        let c = s.get_char(i);
        let ghost pre = s@.subrange(0, i as int);
        let ghost cur = s@.subrange(0, i + 1);
        proof {
            assert(cur.drop_last() =~= pre);
            assert(cur.last() == c);
            lemma_fields_nonempty(pre);
        }
        if c == ',' {
            spans.push((i + 1, i + 1));
            proof {
                assert(s@.subrange(i + 1, i + 1) =~= Seq::<char>::empty());
            }
        } else {
            let last = spans.len() - 1;
            let (a, _) = spans[last];
            spans.set(last, (a, i + 1));
            proof {
                assert(s@.subrange(a as int, i + 1) =~= s@.subrange(a as int, i as int).push(c));
            }
        }
        i += 1;
    }
    proof {
        assert(s@.subrange(0, n as int) =~= s@);
    }
    spans
}

/// Why the `Authorization` header was refused.
#[derive(Clone, Copy, Debug, PartialEq, Eq, Structural)]
pub enum HeaderError {
    /// The header is not `Bearer` followed by one token.
    InvalidFormat,
}

/// The token of an `Authorization` header: the header must consist of
/// exactly two words, the first being `Bearer`.
pub fn bearer_token(header: &str) -> (r: Result<String, HeaderError>)
    ensures
        ({
            let w = words(header@);
            &&& w.len() == 2 && w[0] == "Bearer"@ ==> r is Ok && r->Ok_0@ == w[1]
            &&& !(w.len() == 2 && w[0] == "Bearer"@) ==> r == Err::<String, HeaderError>(
                HeaderError::InvalidFormat,
            )
        }),
{
    let spans = word_spans(header);
    if spans.len() != 2 {
        return Err(HeaderError::InvalidFormat);
    }
    let (a0, b0) = spans[0];
    let (a1, b1) = spans[1];
    let first = header.substring_char(a0, b0).to_owned();
    let bearer = String::from_str("Bearer");
    if first != bearer {
        return Err(HeaderError::InvalidFormat);
    }
    Ok(header.substring_char(a1, b1).to_owned())
}

/// Whether `c` is an ASCII decimal digit.
pub open spec fn is_digit(c: char) -> bool {
    '0' as u32 <= c as u32 <= '9' as u32
}

/// The value of a run of decimal digits.
pub open spec fn digits_value(s: Seq<char>) -> int
    decreases s.len(),
{
    if s.len() == 0 {
        0
    } else {
        digits_value(s.drop_last()) * 10 + (s.last() as u32 - '0' as u32)
    }
}

/// Every character of `s` is an ASCII digit.
pub open spec fn all_digits(s: Seq<char>) -> bool {
    forall|i: int| 0 <= i < s.len() ==> is_digit(#[trigger] s[i])
}

/// `s` without its leading `+` or `-`, if it has one.
pub open spec fn unsigned_part(s: Seq<char>) -> Seq<char> {
    if s.len() > 0 && (s[0] == '-' || s[0] == '+') {
        s.skip(1)
    } else {
        s
    }
}

/// What `str::parse::<i32>` accepts: an optional `+` or `-` followed by one
/// or more ASCII digits, whose value fits in an `i32`; nothing else.
pub open spec fn decimal_i32(s: Seq<char>) -> Option<i32> {
    let body = unsigned_part(s);
    let v = if s.len() > 0 && s[0] == '-' {
        -digits_value(body)
    } else {
        digits_value(body)
    };
    if body.len() > 0 && all_digits(body) && i32::MIN <= v <= i32::MAX {
        Some(v as i32)
    } else {
        None
    }
}

/// A run of digits is worth at least any of its prefixes, and nothing
/// negative.
proof fn lemma_digits_value_grows(s: Seq<char>, k: int)
    requires
        0 <= k <= s.len(),
        all_digits(s),
    ensures
        0 <= digits_value(s.subrange(0, k)) <= digits_value(s),
    decreases s.len(),
{
    if k == s.len() {
        assert(s.subrange(0, k) =~= s);
        if s.len() > 0 {
            lemma_digits_value_grows(s.drop_last(), k - 1);
        }
    } else {
        lemma_digits_value_grows(s.drop_last(), k);
        assert(s.drop_last().subrange(0, k) =~= s.subrange(0, k));
        assert(is_digit(s[s.len() - 1]));
    }
}

/// Reads `s` as `str::parse::<i32>` does: an optional sign followed by one
/// or more ASCII digits, whose value fits.
pub fn parse_i32(s: &str) -> (r: Option<i32>)
    ensures
        r == decimal_i32(s@),
{
    let cs = crate::query::chars_of(s);
    let n = cs.len();
    if n == 0 {
        return None;
    }
    let neg = cs[0] == '-';
    let start: usize = if cs[0] == '-' || cs[0] == '+' {
        1
    } else {
        0
    };
    let ghost body = unsigned_part(s@);
    proof {
        assert(body =~= s@.subrange(start as int, n as int));
    }
    if start == n {
        return None;
    }
    let mut v: u64 = 0;
    let mut i: usize = start;
    proof {
        assert(body.subrange(0, 0) =~= Seq::<char>::empty());
    }
    while i < n
        invariant
            cs@ == s@,
            n == s@.len(),
            n > 0,
            neg == (s@[0] == '-'),
            body == unsigned_part(s@),
            body == s@.subrange(start as int, n as int),
            start <= i <= n,
            v as int == digits_value(body.subrange(0, i - start)),
            v <= 2147483648,
            forall|j: int| 0 <= j < i - start ==> is_digit(#[trigger] body[j]),
        decreases n - i,
    {
        let c = cs[i];
        proof {
            assert(body[i - start] == c);
        }
        let u = c as u32;
        if u < '0' as u32 || u > '9' as u32 {
            proof {
                assert(!is_digit(body[i - start]));
                assert(!all_digits(body));
            }
            return None;
        }
        proof {
            let pre = body.subrange(0, i + 1 - start);
            assert(pre.drop_last() =~= body.subrange(0, i - start));
            assert(pre.last() == c);
        }
        v = v * 10 + (u - '0' as u32) as u64;
        i += 1;
        proof {
            assert(v as int == digits_value(body.subrange(0, i - start)));
        }
        if v > 2147483648 {
            proof {
                if all_digits(body) {
                    lemma_digits_value_grows(body, i - start);
                    assert(digits_value(body) > 2147483648);
                }
            }
            return None;
        }
    }
    proof {
        assert(body.subrange(0, n - start) =~= body);
    }
    if neg {
        Some((0 - v as i64) as i32)
    } else if v <= 2147483647 {
        Some(v as i32)
    } else {
        None
    }
}

/// Why a token's subject could not be read.
#[derive(Clone, Copy, Debug, PartialEq, Eq, Structural)]
pub enum SubjectError {
    /// The subject does not have exactly three comma-separated fields.
    InvalidFormat,
    /// The first field is not a decimal user identifier.
    InvalidUserId,
}

/// Who a token speaks for.
#[derive(Clone, Debug)]
pub struct Subject {
    pub user_id: i32,
    pub role: String,
}

/// Reads a token's subject, `user_id,role,rest`: exactly three
/// comma-separated fields, the first a decimal user identifier and the
/// second the user's role.
pub fn parse_subject(sub: &str) -> (r: Result<Subject, SubjectError>)
    ensures
        ({
            let f = fields(sub@);
            &&& f.len() != 3 ==> r == Err::<Subject, SubjectError>(SubjectError::InvalidFormat)
            &&& f.len() == 3 && decimal_i32(f[0]) is None ==> r == Err::<Subject, SubjectError>(
                SubjectError::InvalidUserId,
            )
            &&& f.len() == 3 && decimal_i32(f[0]) is Some ==> r is Ok && r->Ok_0.user_id
                == decimal_i32(f[0])->0 && r->Ok_0.role@ == f[1]
        }),
{
    let spans = field_spans(sub);
    if spans.len() != 3 {
        return Err(SubjectError::InvalidFormat);
    }
    let (a0, b0) = spans[0];
    let (a1, b1) = spans[1];
    match parse_i32(sub.substring_char(a0, b0)) {
        None => Err(SubjectError::InvalidUserId),
        Some(user_id) => Ok(Subject { user_id, role: sub.substring_char(a1, b1).to_owned() }),
    }
}

/// What the token-check answers for a subject: the user's room.
pub fn token_room(sub: &str) -> (r: Result<VerifyTokenData, SubjectError>)
    ensures
        ({
            let f = fields(sub@);
            &&& f.len() != 3 ==> r == Err::<VerifyTokenData, SubjectError>(
                SubjectError::InvalidFormat,
            )
            &&& f.len() == 3 && decimal_i32(f[0]) is None ==> r == Err::<
                VerifyTokenData,
                SubjectError,
            >(SubjectError::InvalidUserId)
            &&& f.len() == 3 && decimal_i32(f[0]) is Some ==> r == Ok::<
                VerifyTokenData,
                SubjectError,
            >(VerifyTokenData { room: decimal_i32(f[0])->0 })
        }),
{
    match parse_subject(sub) {
        Ok(s) => Ok(VerifyTokenData { room: s.user_id }),
        Err(e) => Err(e),
    }
}

} // verus!
