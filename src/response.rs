//! Incoming replies: `*<address?><opcode><value>\r`, read by splitting the
//! text between the start marker and the delimiter on the opcode.
use vstd::prelude::*;

use crate::error::{LssDriverError, PacketParsingError, ParseFailure};
use crate::text::{
    byte_value, chars_of, decimal, is_digit, lemma_decimal_digits, lemma_signed_decimal_round_trip,
    parse_i32, parse_u8, signed_decimal, signed_value,
};

verus! {

/// The text of a frame without its start marker and its delimiter.
pub open spec fn frame_body(message: Seq<char>) -> Seq<char> {
    if message.len() >= 2 {
        message.subrange(1, message.len() - 1)
    } else {
        Seq::empty()
    }
}

/// The first position at or after `i` where `sep` occurs in `s`.
pub open spec fn find_from(s: Seq<char>, sep: Seq<char>, i: int) -> Option<int>
    decreases s.len() + 1 - i,
{
    if i < 0 || i + sep.len() > s.len() {
        None
    } else if s.subrange(i, i + sep.len()) == sep {
        Some(i)
    } else {
        find_from(s, sep, i + 1)
    }
}

/// The fields of `s` between the occurrences of `sep`, found from left to
/// right without overlap, as `str::split` yields them. An empty separator
/// splits around every character.
pub open spec fn fields(s: Seq<char>, sep: Seq<char>) -> Seq<Seq<char>>
    decreases s.len(),
    via fields_decreases
{
    if sep.len() == 0 {
        seq![Seq::empty()] + Seq::new(s.len(), |i: int| seq![s[i]]) + seq![Seq::empty()]
    } else {
        match find_from(s, sep, 0) {
            Some(k) => seq![s.take(k)] + fields(s.skip(k + sep.len()), sep),
            None => seq![s],
        }
    }
}

#[via_fn]
proof fn fields_decreases(s: Seq<char>, sep: Seq<char>) {
    if sep.len() > 0 {
        lemma_find_bounds(s, sep, 0);
    }
}

/// A found occurrence lies at or after the start of the search and inside `s`.
proof fn lemma_find_bounds(s: Seq<char>, sep: Seq<char>, i: int)
    ensures
        find_from(s, sep, i) matches Some(k) ==> i <= k && k + sep.len() <= s.len()
            && s.subrange(k, k + sep.len()) == sep,
    decreases s.len() + 1 - i,
{
    if !(i < 0 || i + sep.len() > s.len()) && s.subrange(i, i + sep.len()) != sep {
        lemma_find_bounds(s, sep, i + 1);
    }
}

/// Searching a suffix finds the same occurrences, shifted.
proof fn lemma_find_shift(s: Seq<char>, sep: Seq<char>, a: int, i: int)
    requires
        0 <= a <= s.len(),
        0 <= i,
    ensures
        find_from(s.skip(a), sep, i) == match find_from(s, sep, a + i) {
            Some(k) => Some(k - a),
            None => None::<int>,
        },
    decreases s.len() + 1 - a - i,
{
    if !(i + sep.len() > s.len() - a) {
        assert(s.skip(a).subrange(i, i + sep.len()) =~= s.subrange(a + i, a + i + sep.len()));
        if s.subrange(a + i, a + i + sep.len()) != sep {
            lemma_find_shift(s, sep, a, i + 1);
        }
    }
}

/// The second field: what lies after the first occurrence, up to the next one.
proof fn lemma_second_field(s: Seq<char>, sep: Seq<char>, k: int)
    requires
        sep.len() > 0,
        find_from(s, sep, 0) == Some(k),
    ensures
        fields(s, sep).len() >= 2,
        fields(s, sep)[0] == s.take(k),
        fields(s, sep)[1] == match find_from(s, sep, k + sep.len()) {
            Some(e) => s.subrange(k + sep.len(), e),
            None => s.skip(k + sep.len()),
        },
{
    lemma_find_bounds(s, sep, 0);
    let rest = s.skip(k + sep.len());
    lemma_find_shift(s, sep, k + sep.len(), 0);
    lemma_fields_nonempty(rest, sep);
    match find_from(s, sep, k + sep.len()) {
        Some(e) => {
            lemma_find_bounds(s, sep, k + sep.len());
            assert(rest.take(e - (k + sep.len())) =~= s.subrange(k + sep.len(), e));
        },
        None => {},
    }
}

proof fn lemma_fields_nonempty(s: Seq<char>, sep: Seq<char>)
    ensures
        fields(s, sep).len() >= 1,
        find_from(s, sep, 0) is None && sep.len() > 0 ==> fields(s, sep) == seq![s],
{
    if sep.len() > 0 {
        if let Some(k) = find_from(s, sep, 0) {
            lemma_find_bounds(s, sep, 0);
        }
    }
}

/// The last field of `s` is the last field of what follows any occurrence
/// reached by searching from the left.
proof fn lemma_last_field_step(s: Seq<char>, sep: Seq<char>, start: int, k: int)
    requires
        sep.len() > 0,
        0 <= start <= s.len(),
        find_from(s, sep, start) == Some(k),
    ensures
        k + sep.len() <= s.len(),
        fields(s.skip(start), sep).last() == fields(s.skip(k + sep.len()), sep).last(),
{
    lemma_find_bounds(s, sep, start);
    lemma_find_shift(s, sep, start, 0);
    let t = s.skip(start);
    assert(t.skip(k - start + sep.len()) =~= s.skip(k + sep.len()));
    lemma_fields_nonempty(s.skip(k + sep.len()), sep);
}

/// The address and integer value of a reply, split on `sep`.
pub open spec fn separate_result(message: Seq<char>, sep: Seq<char>) -> Result<
    (u8, i32),
    ParseFailure,
> {
    let f = fields(frame_body(message), sep);
    match byte_value(f[0]) {
        None => Err(ParseFailure::InvalidAddress),
        Some(id) => if f.len() < 2 {
            Err(ParseFailure::MissingValue)
        } else {
            match signed_value(f[1]) {
                None => Err(ParseFailure::InvalidValue),
                Some(v) => Ok((id as u8, v as i32)),
            }
        },
    }
}

/// The address and verbatim text value of a reply, split on `sep`.
pub open spec fn separate_string_result(message: Seq<char>, sep: Seq<char>) -> Result<
    (u8, Seq<char>),
    ParseFailure,
> {
    let f = fields(frame_body(message), sep);
    match byte_value(f[0]) {
        None => Err(ParseFailure::InvalidAddress),
        Some(id) => if f.len() < 2 {
            Err(ParseFailure::MissingValue)
        } else {
            Ok((id as u8, f[1]))
        },
    }
}

/// The integer in the last field of a reply split on `sep`, whatever precedes it.
pub open spec fn value_only_result(message: Seq<char>, sep: Seq<char>) -> Result<
    i32,
    ParseFailure,
> {
    match signed_value(fields(frame_body(message), sep).last()) {
        None => Err(ParseFailure::InvalidValue),
        Some(v) => Ok(v as i32),
    }
}

/// A search from `from` stops at the first occurrence.
proof fn lemma_find_first(s: Seq<char>, sep: Seq<char>, from: int, k: int)
    requires
        0 <= from <= k,
        k + sep.len() <= s.len(),
        s.subrange(k, k + sep.len()) == sep,
        forall|i: int| from <= i < k ==> #[trigger] s.subrange(i, i + sep.len()) != sep,
    ensures
        find_from(s, sep, from) == Some(k),
    decreases k - from,
{
    if from < k {
        lemma_find_first(s, sep, from + 1, k);
    }
}

/// A search finds nothing where no occurrence starts at or after `from`.
proof fn lemma_find_none(s: Seq<char>, sep: Seq<char>, from: int)
    requires
        0 <= from,
        forall|i: int| from <= i && i + sep.len() <= s.len() ==> #[trigger] s.subrange(i, i + sep.len()) != sep,
    ensures
        find_from(s, sep, from) is None,
    decreases s.len() + 1 - from,
{
    if from + sep.len() <= s.len() {
        lemma_find_none(s, sep, from + 1);
    }
}

/// The reply that a servo at address `id` sends for `opcode` with `value`.
pub open spec fn reply_text(id: u8, opcode: Seq<char>, value: i32) -> Seq<char> {
    seq!['*'] + decimal(id as nat) + opcode + signed_decimal(value as int) + seq!['\r']
}

/// Splitting on the opcode tolerates an address field of any width: a reply
/// built from an address, an opcode that starts with an uppercase letter and
/// a value separates back into that address and value, and reading the value
/// alone gives the same value.
pub proof fn lemma_reply_round_trip(id: u8, opcode: Seq<char>, value: i32)
    requires
        opcode.len() > 0,
        'A' <= opcode[0] <= 'Z',
    ensures
        separate_result(reply_text(id, opcode, value), opcode) == Ok::<(u8, i32), ParseFailure>(
            (id, value),
        ),
        value_only_result(reply_text(id, opcode, value), opcode) == Ok::<i32, ParseFailure>(
            value,
        ),
{
    let d = decimal(id as nat);
    let w = signed_decimal(value as int);
    let body = d + opcode + w;
    let n = opcode.len();
    let a = d.len() as int;
    let m = reply_text(id, opcode, value);
    assert(frame_body(m) =~= body);
    lemma_decimal_digits(id as nat);
    lemma_signed_decimal_round_trip(value);
    if value < 0 {
        lemma_decimal_digits((-value) as nat);
    } else {
        lemma_decimal_digits(value as nat);
    }
    assert forall|i: int| 0 <= i < w.len() implies is_digit(#[trigger] w[i]) || w[i] == '-' by {
        if value < 0 {
            if i > 0 {
                assert(w[i] == decimal((-value) as nat)[i - 1]);
            }
        }
    }
    assert(body.subrange(a, a + n) =~= opcode);
    assert forall|i: int| 0 <= i < a implies #[trigger] body.subrange(i, i + n) != opcode by {
        assert(body.subrange(i, i + n)[0] == d[i]);
    }
    lemma_find_first(body, opcode, 0, a);
    assert forall|i: int| a + n <= i && i + n <= body.len() implies #[trigger] body.subrange(
        i,
        i + n,
    ) != opcode by {
        assert(body.subrange(i, i + n)[0] == w[i - a - n]);
    }
    lemma_find_none(body, opcode, a + n);
    lemma_second_field(body, opcode, a);
    assert(body.take(a) =~= d);
    assert(body.skip(a + n) =~= w);
    assert(is_digit(d[0]));
    assert(fields(body, opcode)[0] == d);
    assert(byte_value(d) == Some(id as int));
    // the last field is the second one: nothing follows the value
    lemma_last_field_step(body, opcode, 0, a);
    assert(body.skip(0) =~= body);
    lemma_find_shift(body, opcode, a + n, 0);
    lemma_fields_nonempty(w, opcode);
}

/// A parse failure of `message` while looking for `opcode`.
pub open spec fn parse_failure(
    e: LssDriverError,
    reason: ParseFailure,
    opcode: Seq<char>,
    message: Seq<char>,
) -> bool {
    e matches LssDriverError::PayloadParseError(p) && p.reason == reason && p.opcode@ == opcode
        && p.raw@ == message
}

/// Whether `sep` occurs in `s` at position `i`.
fn occurs_at(s: &Vec<char>, sep: &Vec<char>, i: usize) -> (r: bool)
    requires
        i + sep.len() <= s.len(),
    ensures
        r == (s@.subrange(i as int, i + sep.len()) == sep@),
{
    let mut j: usize = 0;
    while j < sep.len()
        invariant
            i + sep.len() <= s.len(),
            0 <= j <= sep.len(),
            forall|m: int| 0 <= m < j ==> s@[i + m] == sep@[m],
        decreases sep.len() - j,
    {
        if s[i + j] != sep[j] {
            assert(s@.subrange(i as int, i + sep.len())[j as int] != sep@[j as int]);
            return false;
        }
        j = j + 1;
    }
    assert(s@.subrange(i as int, i + sep.len()) =~= sep@);
    true
}

/// The first occurrence of a non-empty `sep` in `s` at or after `from`.
fn find_separator(s: &Vec<char>, sep: &Vec<char>, from: usize) -> (r: Option<usize>)
    requires
        sep.len() > 0,
        from <= s.len(),
    ensures
        r is Some == find_from(s@, sep@, from as int) is Some,
        r matches Some(k) ==> find_from(s@, sep@, from as int) == Some(k as int),
{
    let mut i: usize = from;
    while sep.len() <= s.len() - i
        invariant
            from <= i <= s.len(),
            sep.len() > 0,
            find_from(s@, sep@, from as int) == find_from(s@, sep@, i as int),
        decreases s.len() - i,
    {
        if occurs_at(s, sep, i) {
            return Some(i);
        }
        i = i + 1;
    }
    None
}

/// One decoded incoming frame, kept as its raw text.
#[derive(PartialEq, Clone, Debug)]
pub struct LssResponse {
    message: String,
}

impl View for LssResponse {
    type V = Seq<char>;

    closed spec fn view(&self) -> Seq<char> {
        self.message@
    }
}

impl LssResponse {
    pub fn new(message: String) -> (r: LssResponse)
        ensures
            r@ == message@,
    {
        LssResponse { message }
    }

    /// The characters between the start marker and the delimiter.
    fn body(&self) -> (r: Vec<char>)
        ensures
            r@ == frame_body(self@),
            self@.len() <= usize::MAX,
    {
        let text = self.message.as_str();
        let n = text.unicode_len();
        if n >= 2 {
            chars_of(text.substring_char(1, n - 1))
        } else {
            Vec::new()
        }
    }

    fn failure(&self, reason: ParseFailure, separator: &str) -> (r: LssDriverError)
        ensures
            parse_failure(r, reason, separator@, self@),
    {
        LssDriverError::PayloadParseError(
            PacketParsingError::new(reason, separator, self.message.as_str()),
        )
    }

    /// Splits the reply on the opcode `separator` into an address and an
    /// integer value.
    pub fn separate(&self, separator: &str) -> (r: Result<(u8, i32), LssDriverError>)
        ensures
            match separate_result(self@, separator@) {
                Ok(p) => r == Ok::<(u8, i32), LssDriverError>(p),
                Err(reason) => r matches Err(e) && parse_failure(e, reason, separator@, self@),
            },
    {
        let body = self.body();
        let sep = chars_of(separator);
        if sep.len() == 0 {
            assert(fields(body@, sep@)[0] =~= Seq::<char>::empty());
            return Err(self.failure(ParseFailure::InvalidAddress, separator));
        }
        match find_separator(&body, &sep, 0) {
            None => {
                proof {
                    lemma_fields_nonempty(body@, sep@);
                    assert(body@.subrange(0, body@.len() as int) =~= body@);
                }
                match parse_u8(&body, 0, body.len()) {
                    None => Err(self.failure(ParseFailure::InvalidAddress, separator)),
                    Some(_) => Err(self.failure(ParseFailure::MissingValue, separator)),
                }
            },
            Some(k) => {
                proof {
                    lemma_second_field(body@, sep@, k as int);
                    lemma_find_bounds(body@, sep@, 0);
                    assert(body@.subrange(0, k as int) =~= body@.take(k as int));
                }
                let id = match parse_u8(&body, 0, k) {
                    None => {
                        return Err(self.failure(ParseFailure::InvalidAddress, separator));
                    },
                    Some(id) => id,
                };
                let start = k + sep.len();
                let end = match find_separator(&body, &sep, start) {
                    Some(e) => {
                        proof {
                            lemma_find_bounds(body@, sep@, start as int);
                        }
                        e
                    },
                    None => {
                        assert(body@.subrange(start as int, body@.len() as int) =~= body@.skip(
                            start as int,
                        ));
                        body.len()
                    },
                };
                match parse_i32(&body, start, end) {
                    None => Err(self.failure(ParseFailure::InvalidValue, separator)),
                    Some(value) => Ok((id, value)),
                }
            },
        }
    }
    /// Splits the reply on the opcode `separator` into an address and the
    /// value field as text, verbatim.
    pub fn separate_string(&self, separator: &str) -> (r: Result<(u8, String), LssDriverError>)
        ensures
            match separate_string_result(self@, separator@) {
                Ok((id, value)) => r matches Ok((rid, rvalue)) && rid == id && rvalue@ == value,
                Err(reason) => r matches Err(e) && parse_failure(e, reason, separator@, self@),
            },
    {
        let body = self.body();
        let sep = chars_of(separator);
        if sep.len() == 0 {
            assert(fields(body@, sep@)[0] =~= Seq::<char>::empty());
            return Err(self.failure(ParseFailure::InvalidAddress, separator));
        }
        match find_separator(&body, &sep, 0) {
            None => {
                proof {
                    lemma_fields_nonempty(body@, sep@);
                    assert(body@.subrange(0, body@.len() as int) =~= body@);
                }
                match parse_u8(&body, 0, body.len()) {
                    None => Err(self.failure(ParseFailure::InvalidAddress, separator)),
                    Some(_) => Err(self.failure(ParseFailure::MissingValue, separator)),
                }
            },
            Some(k) => {
                proof {
                    lemma_second_field(body@, sep@, k as int);
                    lemma_find_bounds(body@, sep@, 0);
                    assert(body@.subrange(0, k as int) =~= body@.take(k as int));
                }
                let id = match parse_u8(&body, 0, k) {
                    None => {
                        return Err(self.failure(ParseFailure::InvalidAddress, separator));
                    },
                    Some(id) => id,
                };
                let start = k + sep.len();
                let end = match find_separator(&body, &sep, start) {
                    Some(e) => {
                        proof {
                            lemma_find_bounds(body@, sep@, start as int);
                        }
                        e
                    },
                    None => {
                        assert(body@.subrange(start as int, body@.len() as int) =~= body@.skip(
                            start as int,
                        ));
                        body.len()
                    },
                };
                let value = self.message.as_str().substring_char(start + 1, end + 1).to_owned();
                assert(value@ =~= body@.subrange(start as int, end as int));
                Ok((id, value))
            },
        }
    }

    /// The integer after the last occurrence of the opcode `separator`,
    /// ignoring any address field; for replies that carry none.
    pub fn get_val(&self, separator: &str) -> (r: Result<i32, LssDriverError>)
        ensures
            match value_only_result(self@, separator@) {
                Ok(v) => r == Ok::<i32, LssDriverError>(v),
                Err(reason) => r matches Err(e) && parse_failure(e, reason, separator@, self@),
            },
    {
        let body = self.body();
        let sep = chars_of(separator);
        if sep.len() == 0 {
            assert(fields(body@, sep@).last() =~= Seq::<char>::empty());
            return Err(self.failure(ParseFailure::InvalidValue, separator));
        }
        let mut start: usize = 0;
        assert(body@.skip(0) =~= body@);
        loop
            invariant
                sep.len() > 0,
                start <= body.len(),
                fields(body@.skip(start as int), sep@).last() == fields(body@, sep@).last(),
            ensures
                start <= body.len(),
                fields(body@, sep@).last() == body@.subrange(start as int, body.len() as int),
            decreases body.len() - start,
        {
            match find_separator(&body, &sep, start) {
                Some(k) => {
                    proof {
                        lemma_last_field_step(body@, sep@, start as int, k as int);
                        lemma_find_bounds(body@, sep@, start as int);
                    }
                    start = k + sep.len();
                },
                None => {
                    proof {
                        lemma_find_shift(body@, sep@, start as int, 0);
                        lemma_fields_nonempty(body@.skip(start as int), sep@);
                        assert(body@.subrange(start as int, body@.len() as int) =~= body@.skip(
                            start as int,
                        ));
                    }
                    break ;
                },
            }
        }
        match parse_i32(&body, start, body.len()) {
            None => Err(self.failure(ParseFailure::InvalidValue, separator)),
            Some(value) => Ok(value),
        }
    }
}

} // verus!
