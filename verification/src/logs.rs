//! The log pipeline: secret redaction, the chunk index and the stored bodies.
//!
//! A stream's body is kept as compressed chunks; an index row per chunk holds its number, its
//! offset in the uncompressed stream, its length and the key of its body.
//!
//! A secret may be split over two chunks. So the end of a chunk that may begin a secret is held
//! back until the next chunk, or the end of the stream, shows what it is.

use crate::text;
use flate2::read::GzDecoder;
use flate2::write::GzEncoder;
use flate2::Compression;
use std::io::Read;
use std::io::Write;
use vstd::prelude::*;

verus! {

/// What replaces a secret.
pub open spec fn mask() -> Seq<u8> {
    seq![0x2au8, 0x2au8, 0x2au8]
}

pub open spec fn starts_with(s: Seq<u8>, p: Seq<u8>) -> bool {
    p.len() <= s.len() && s.take(p.len() as int) == p
}

/// `p` occurs in `s`.
pub open spec fn occurs(s: Seq<u8>, p: Seq<u8>) -> bool {
    exists|i: int| 0 <= i <= s.len() && #[trigger] starts_with(s.skip(i), p)
}

/// `haystack` with every occurrence of `needle`, found from the left, replaced.
pub open spec fn replaced(haystack: Seq<u8>, needle: Seq<u8>, repl: Seq<u8>) -> Seq<u8>
    decreases haystack.len(),
{
    if needle.len() == 0 || haystack.len() == 0 {
        haystack
    } else if starts_with(haystack, needle) {
        repl + replaced(haystack.skip(needle.len() as int), needle, repl)
    } else {
        seq![haystack[0]] + replaced(haystack.skip(1), needle, repl)
    }
}

proof fn short_is_kept(haystack: Seq<u8>, needle: Seq<u8>, repl: Seq<u8>)
    requires
        haystack.len() < needle.len(),
    ensures
        replaced(haystack, needle, repl) == haystack,
    decreases haystack.len(),
{
    if haystack.len() > 0 {
        short_is_kept(haystack.skip(1), needle, repl);
        assert(seq![haystack[0]] + haystack.skip(1) =~= haystack);
    }
}

fn bytes_at(haystack: &Vec<u8>, needle: &Vec<u8>, i: usize) -> (r: bool)
    requires
        i <= haystack@.len(),
    ensures
        r == starts_with(haystack@.skip(i as int), needle@),
{
    let ghost tail = haystack@.skip(i as int);
    let n: usize = haystack.len();
    if needle.len() > n - i {
        return false;
    }
    let mut k: usize = 0;
    while k < needle.len()
        invariant
            n == haystack@.len(),
            k <= needle@.len() <= haystack@.len() - i,
            tail == haystack@.skip(i as int),
            forall|j: int| 0 <= j < k ==> #[trigger] needle@[j] == haystack@[i + j],
        decreases needle@.len() - k,
    {
        if needle[k] != haystack[i + k] {
            assert(tail.take(needle@.len() as int)[k as int] == haystack@[i + k]);
            return false;
        }
        k = k + 1;
    }
    assert(tail.take(needle@.len() as int) =~= needle@);
    true
}

/// Whether the text from `i` on begins the value and is not all of it.
fn begins_at(text: &Vec<u8>, i: usize, value: &Vec<u8>) -> (r: bool)
    requires
        i <= text@.len(),
    ensures
        r == begins(text@.skip(i as int), value@),
{
    let ghost end = text@.skip(i as int);
    let len: usize = text.len();
    let n: usize = len - i;
    if n >= value.len() {
        return false;
    }
    let mut k: usize = 0;
    while k < n
        invariant
            i <= len == text@.len(),
            n == len - i,
            n < value@.len(),
            k <= n,
            end == text@.skip(i as int),
            forall|j: int| 0 <= j < k ==> #[trigger] value@[j] == text@[i + j],
        decreases n - k,
    {
        if value[k] != text[i + k] {
            assert(value@.take(n as int)[k as int] != end[k as int]);
            return false;
        }
        k = k + 1;
    }
    assert(value@.take(n as int) =~= end);
    true
}

/// Replaces every occurrence of `needle` in `haystack`.
pub fn replace_bytes(haystack: &Vec<u8>, needle: &Vec<u8>, repl: &Vec<u8>) -> (r: Vec<u8>)
    ensures
        r@ == replaced(haystack@, needle@, repl@),
{
    if needle.len() == 0 || haystack.len() < needle.len() {
        proof {
            if needle@.len() > 0 {
                short_is_kept(haystack@, needle@, repl@);
            }
        }
        let out = haystack.clone();
        assert(out@ =~= haystack@);
        return out;
    }
    let mut out: Vec<u8> = Vec::new();
    let mut i: usize = 0;
    assert(haystack@.skip(0) =~= haystack@);
    assert(out@ + replaced(haystack@, needle@, repl@) =~= replaced(haystack@, needle@, repl@));
    while i < haystack.len()
        invariant
            i <= haystack@.len(),
            needle@.len() > 0,
            out@ + replaced(haystack@.skip(i as int), needle@, repl@) == replaced(haystack@, needle@, repl@),
        decreases haystack@.len() - i,
    {
        let ghost before = out@;
        let ghost tail = haystack@.skip(i as int);
        if bytes_at(haystack, needle, i) {
            let mut k: usize = 0;
            while k < repl.len()
                invariant
                    k <= repl@.len(),
                    out@ == before + repl@.take(k as int),
                decreases repl@.len() - k,
            {
                out.push(repl[k]);
                assert(before + repl@.take(k + 1) =~= (before + repl@.take(k as int)).push(repl@[k as int]));
                k = k + 1;
            }
            assert(repl@.take(k as int) =~= repl@);
            assert(tail.skip(needle@.len() as int) =~= haystack@.skip(i + needle@.len()));
            assert(before + (repl@ + replaced(tail.skip(needle@.len() as int), needle@, repl@)) =~= out@ + replaced(
                tail.skip(needle@.len() as int),
                needle@,
                repl@,
            ));
            i = i + needle.len();
        } else {
            out.push(haystack[i]);
            assert(tail[0] == haystack@[i as int]);
            assert(tail.skip(1) =~= haystack@.skip(i + 1));
            assert(before + (seq![tail[0]] + replaced(tail.skip(1), needle@, repl@)) =~= out@ + replaced(
                tail.skip(1),
                needle@,
                repl@,
            ));
            i = i + 1;
        }
    }
    assert(haystack@.skip(i as int) =~= Seq::<u8>::empty());
    assert(out@ + replaced(haystack@.skip(i as int), needle@, repl@) =~= out@);
    out
}

/// No byte of the value is the one the mask is made of.
pub open spec fn mask_free(s: Seq<u8>) -> bool {
    forall|i: int| 0 <= i < s.len() ==> #[trigger] s[i] != 0x2au8
}

proof fn prefix_was_there(h: Seq<u8>, needle: Seq<u8>, y: Seq<u8>)
    requires
        mask_free(y),
        starts_with(replaced(h, needle, mask()), y),
    ensures
        starts_with(h, y),
    decreases h.len(),
{
    let out = replaced(h, needle, mask());
    if needle.len() == 0 || h.len() == 0 {
    } else if y.len() == 0 {
        assert(h.take(0) =~= y);
    } else if starts_with(h, needle) {
        assert(out[0] == 0x2au8);
        assert(out.take(y.len() as int)[0] == y[0]);
    } else {
        let rest = replaced(h.skip(1), needle, mask());
        let tail = y.skip(1);
        assert(out.take(y.len() as int)[0] == y[0]);
        assert(rest.take(tail.len() as int) =~= tail) by {
            assert forall|j: int| 0 <= j < tail.len() implies rest[j] == tail[j] by {
                assert(out.take(y.len() as int)[j + 1] == y[j + 1]);
                assert(out[j + 1] == rest[j]);
            }
        }
        assert forall|j: int| 0 <= j < tail.len() implies #[trigger] tail[j] != 0x2au8 by {
            assert(y[j + 1] != 0x2au8);
        }
        prefix_was_there(h.skip(1), needle, tail);
        assert(h.take(y.len() as int) =~= y) by {
            assert forall|j: int| 0 <= j < y.len() implies h[j] == y[j] by {
                if j > 0 {
                    assert(h.skip(1).take(tail.len() as int)[j - 1] == tail[j - 1]);
                }
            }
        }
    }
}

/// Masking one value introduces no value that is free of the mask's byte: what occurs afterwards
/// occurred before.
pub proof fn masking_introduces_nothing(h: Seq<u8>, needle: Seq<u8>, y: Seq<u8>)
    requires
        mask_free(y),
        y.len() > 0,
        occurs(replaced(h, needle, mask()), y),
    ensures
        occurs(h, y),
    decreases h.len(),
{
    let out = replaced(h, needle, mask());
    if needle.len() > 0 && h.len() > 0 {
        let i = choose|i: int| 0 <= i <= out.len() && #[trigger] starts_with(out.skip(i), y);
        let at = out.skip(i);
        assert(at.take(y.len() as int)[0] == at[0] == y[0]);
        if starts_with(h, needle) {
            let rest = replaced(h.skip(needle.len() as int), needle, mask());
            if i < 3 {
                assert(out[i] == 0x2au8);
            } else {
                assert(at =~= rest.skip(i - 3));
                assert(starts_with(rest.skip(i - 3), y));
                masking_introduces_nothing(h.skip(needle.len() as int), needle, y);
                carried(h, needle.len() as int, y);
            }
        } else {
            let rest = replaced(h.skip(1), needle, mask());
            if i == 0 {
                assert(at =~= out);
                prefix_was_there(h, needle, y);
                assert(h.skip(0) =~= h);
                assert(starts_with(h.skip(0), y));
            } else {
                assert(at =~= rest.skip(i - 1));
                assert(starts_with(rest.skip(i - 1), y));
                masking_introduces_nothing(h.skip(1), needle, y);
                carried(h, 1, y);
            }
        }
    }
}

proof fn carried(h: Seq<u8>, n: int, y: Seq<u8>)
    requires
        0 <= n <= h.len(),
        occurs(h.skip(n), y),
    ensures
        occurs(h, y),
{
    let tail = h.skip(n);
    let i = choose|i: int| 0 <= i <= tail.len() && #[trigger] starts_with(tail.skip(i), y);
    assert(h.skip(n + i) =~= tail.skip(i));
    assert(starts_with(h.skip(n + i), y));
}

/// A masked value no longer occurs.
pub proof fn masking_removes_the_value(h: Seq<u8>, needle: Seq<u8>)
    requires
        mask_free(needle),
        needle.len() > 0,
    ensures
        !occurs(replaced(h, needle, mask()), needle),
    decreases h.len(),
{
    let out = replaced(h, needle, mask());
    if occurs(out, needle) {
        let i = choose|i: int| 0 <= i <= out.len() && #[trigger] starts_with(out.skip(i), needle);
        let at = out.skip(i);
        assert(at.take(needle.len() as int)[0] == at[0] == needle[0]);
        if h.len() > 0 {
            if starts_with(h, needle) {
                let rest = replaced(h.skip(needle.len() as int), needle, mask());
                masking_removes_the_value(h.skip(needle.len() as int), needle);
                if i < 3 {
                    assert(out[i] == 0x2au8);
                } else {
                    assert(at =~= rest.skip(i - 3));
                    assert(starts_with(rest.skip(i - 3), needle));
                }
            } else {
                let rest = replaced(h.skip(1), needle, mask());
                masking_removes_the_value(h.skip(1), needle);
                if i == 0 {
                    assert(at =~= out);
                    prefix_was_there(h, needle, needle);
                } else {
                    assert(at =~= rest.skip(i - 1));
                    assert(starts_with(rest.skip(i - 1), needle));
                }
            }
        }
    }
}

/// `data` with every value masked, one after another.
pub open spec fn masked(data: Seq<u8>, secrets: Seq<Seq<u8>>) -> Seq<u8>
    decreases secrets.len(),
{
    if secrets.len() == 0 {
        data
    } else {
        replaced(masked(data, secrets.drop_last()), secrets.last(), mask())
    }
}

/// A value that is free of the mask's byte does not occur in a text that it was masked in.
pub proof fn masked_text_holds_no_secret(data: Seq<u8>, secrets: Seq<Seq<u8>>, i: int)
    requires
        0 <= i < secrets.len(),
        secrets[i].len() > 0,
        mask_free(secrets[i]),
    ensures
        !occurs(masked(data, secrets), secrets[i]),
    decreases secrets.len(),
{
    let before = masked(data, secrets.drop_last());
    if i == secrets.len() - 1 {
        masking_removes_the_value(before, secrets[i]);
    } else {
        masked_text_holds_no_secret(data, secrets.drop_last(), i);
        assert(secrets.drop_last()[i] == secrets[i]);
        if occurs(masked(data, secrets), secrets[i]) {
            masking_introduces_nothing(before, secrets.last(), secrets[i]);
        }
    }
}

/// A beginning without the mask's byte was there before the values were masked.
proof fn masked_prefix_was_there(data: Seq<u8>, secrets: Seq<Seq<u8>>, y: Seq<u8>)
    requires
        mask_free(y),
        starts_with(masked(data, secrets), y),
    ensures
        starts_with(data, y),
    decreases secrets.len(),
{
    if secrets.len() > 0 {
        prefix_was_there(masked(data, secrets.drop_last()), secrets.last(), y);
        masked_prefix_was_there(data, secrets.drop_last(), y);
    }
}

proof fn replaced_nothing(h: Seq<u8>, needle: Seq<u8>)
    requires
        mask_free(replaced(h, needle, mask())) || needle.len() == 0 || !occurs(h, needle),
    ensures
        replaced(h, needle, mask()) == h,
    decreases h.len(),
{
    let out = replaced(h, needle, mask());
    if needle.len() > 0 && h.len() > 0 {
        assert(h.skip(0) =~= h);
        if starts_with(h, needle) {
            assert(starts_with(h.skip(0), needle));
            assert(out[0] == 0x2au8);
        } else {
            let rest = replaced(h.skip(1), needle, mask());
            if mask_free(out) {
                assert forall|j: int| 0 <= j < rest.len() implies #[trigger] rest[j] != 0x2au8 by {
                    assert(out[j + 1] == rest[j]);
                }
            } else if occurs(h.skip(1), needle) {
                carried(h, 1, needle);
            }
            replaced_nothing(h.skip(1), needle);
            assert(seq![h[0]] + h.skip(1) =~= h);
        }
    }
}

/// A text that comes out without the mask's byte came out as it was.
proof fn masked_nothing(data: Seq<u8>, secrets: Seq<Seq<u8>>)
    requires
        mask_free(masked(data, secrets)),
    ensures
        masked(data, secrets) == data,
    decreases secrets.len(),
{
    if secrets.len() > 0 {
        replaced_nothing(masked(data, secrets.drop_last()), secrets.last());
        masked_nothing(data, secrets.drop_last());
    }
}

/// A text in which no value occurs comes out as it was.
pub proof fn clean_text_stays(data: Seq<u8>, secrets: Seq<Seq<u8>>)
    requires
        forall|i: int| 0 <= i < secrets.len() ==> (#[trigger] secrets[i]).len() == 0 || !occurs(data, secrets[i]),
    ensures
        masked(data, secrets) == data,
    decreases secrets.len(),
{
    if secrets.len() > 0 {
        let rest = secrets.drop_last();
        assert forall|i: int| 0 <= i < rest.len() implies (#[trigger] rest[i]).len() == 0 || !occurs(data, rest[i]) by {
            assert(rest[i] == secrets[i]);
        }
        clean_text_stays(data, rest);
        assert(secrets.last() == secrets[secrets.len() - 1]);
        replaced_nothing(data, secrets.last());
    }
}

/// `s` begins the value and is not all of it.
pub open spec fn begins(s: Seq<u8>, value: Seq<u8>) -> bool {
    s.len() < value.len() && starts_with(value, s)
}

/// `s` begins one of the values.
pub open spec fn begins_any(s: Seq<u8>, secrets: Seq<Seq<u8>>) -> bool {
    exists|i: int| 0 <= i < secrets.len() && begins(s, #[trigger] secrets[i])
}

/// Where the first suffix from `from` on starts that begins one of the values; the end of the text
/// where none does.
pub open spec fn held_from(text: Seq<u8>, secrets: Seq<Seq<u8>>, from: int) -> int
    decreases text.len() - from,
{
    if from >= text.len() {
        text.len() as int
    } else if begins_any(text.skip(from), secrets) {
        from
    } else {
        held_from(text, secrets, from + 1)
    }
}

proof fn held_from_is_first(text: Seq<u8>, secrets: Seq<Seq<u8>>, from: int)
    requires
        0 <= from <= text.len(),
    ensures
        from <= held_from(text, secrets, from) <= text.len(),
        forall|j: int|
            from <= j < held_from(text, secrets, from) ==> !begins_any(#[trigger] text.skip(j), secrets),
    decreases text.len() - from,
{
    if from < text.len() && !begins_any(text.skip(from), secrets) {
        held_from_is_first(text, secrets, from + 1);
    }
}

/// What a chunk adds to a stream whose end `tail` was held back: the bytes that go out, and the
/// new end to be held back. That is the longest suffix of the masked text that begins one of the
/// values.
pub open spec fn passed_on(tail: Seq<u8>, chunk: Seq<u8>, secrets: Seq<Seq<u8>>) -> (Seq<u8>, Seq<u8>) {
    let text = masked(tail + chunk, secrets);
    let cut = held_from(text, secrets, 0);
    (text.take(cut), text.skip(cut))
}

/// No longer suffix of the masked text begins a value than the one that is held back.
pub proof fn the_longest_beginning_is_held_back(tail: Seq<u8>, chunk: Seq<u8>, secrets: Seq<Seq<u8>>)
    ensures
        ({
            let (out, held) = passed_on(tail, chunk, secrets);
            &&& out + held == masked(tail + chunk, secrets)
            &&& held.len() == 0 || begins_any(held, secrets)
            &&& forall|j: int|
                0 <= j < out.len() ==> !begins_any(#[trigger] masked(tail + chunk, secrets).skip(j), secrets)
        }),
{
    let text = masked(tail + chunk, secrets);
    held_from_is_first(text, secrets, 0);
    held_from_stops(text, secrets, 0);
    let cut = held_from(text, secrets, 0);
    assert(text.take(cut) + text.skip(cut) =~= text);
}

proof fn held_from_stops(text: Seq<u8>, secrets: Seq<Seq<u8>>, from: int)
    requires
        0 <= from <= text.len(),
    ensures
        held_from(text, secrets, from) == text.len() || begins_any(text.skip(held_from(text, secrets, from)), secrets),
    decreases text.len() - from,
{
    if from < text.len() && !begins_any(text.skip(from), secrets) {
        held_from_stops(text, secrets, from + 1);
    }
}

/// A chunk, and the values that are registered when it comes.
pub struct Arrival {
    pub secrets: Seq<Seq<u8>>,
    pub chunk: Seq<u8>,
}

/// What the arrivals make of a stream whose end `tail` was held back: the bodies that go out, one
/// for each arrival, and the end that is held back behind the last.
pub open spec fn logged(tail: Seq<u8>, arrivals: Seq<Arrival>) -> (Seq<Seq<u8>>, Seq<u8>)
    decreases arrivals.len(),
{
    if arrivals.len() == 0 {
        (Seq::empty(), tail)
    } else {
        let (bodies, held) = logged(tail, arrivals.drop_last());
        let (out, rest) = passed_on(held, arrivals.last().chunk, arrivals.last().secrets);
        (bodies.push(out), rest)
    }
}

/// All bodies of a stream that has ended: those of its arrivals, and its held back end, masked.
pub open spec fn ended(tail: Seq<u8>, arrivals: Seq<Arrival>, secrets: Seq<Seq<u8>>) -> Seq<Seq<u8>> {
    logged(tail, arrivals).0.push(masked(logged(tail, arrivals).1, secrets))
}

/// What goes out behind `sent` does not complete a value, where none is in what was sent and held
/// back, and nothing that was sent begins one which the held back end goes on with.
proof fn masking_completes_no_value(
    sent: Seq<u8>,
    held: Seq<u8>,
    chunk: Seq<u8>,
    secrets: Seq<Seq<u8>>,
    value: Seq<u8>,
)
    requires
        value.len() > 0,
        mask_free(value),
        secrets.contains(value),
        sent.len() == 0 || !occurs(sent + held, value),
        forall|p: int| 0 <= p < sent.len() ==> !begins(#[trigger] (sent + held).skip(p), value),
    ensures
        !occurs(sent + masked(held + chunk, secrets), value),
{
    let text = masked(held + chunk, secrets);
    let all = sent + text;
    let before = sent + held;
    let k = choose|k: int| 0 <= k < secrets.len() && secrets[k] == value;
    masked_text_holds_no_secret(held + chunk, secrets, k);
    if occurs(all, value) {
        let p = choose|p: int| 0 <= p <= all.len() && #[trigger] starts_with(all.skip(p), value);
        let at = all.skip(p);
        assert(at.take(value.len() as int) == value);
        if p >= sent.len() {
            assert(at =~= text.skip(p - sent.len()));
            assert(starts_with(text.skip(p - sent.len()), value));
        } else {
            let x = sent.len() - p;
            if value.len() <= x {
                assert(before.skip(p).take(value.len() as int) =~= value) by {
                    assert forall|j: int| 0 <= j < value.len() implies before.skip(p)[j] == value[j] by {
                        assert(at.take(value.len() as int)[j] == value[j]);
                    }
                }
                assert(starts_with(before.skip(p), value));
            } else {
                let y = value.skip(x);
                assert forall|j: int| 0 <= j < y.len() implies #[trigger] y[j] != 0x2au8 by {
                    assert(value[x + j] != 0x2au8);
                }
                assert(text.take(y.len() as int) =~= y) by {
                    assert forall|j: int| 0 <= j < y.len() implies text[j] == y[j] by {
                        assert(at.take(value.len() as int)[x + j] == value[x + j]);
                    }
                }
                masked_prefix_was_there(held + chunk, secrets, y);
                assert forall|j: int| 0 <= j < value.len() && j < before.len() - p implies before.skip(p)[j]
                    == value[j] by {
                    if j < x {
                        assert(at.take(value.len() as int)[j] == value[j]);
                    } else {
                        assert((held + chunk).take(y.len() as int)[j - x] == y[j - x]);
                    }
                }
                if y.len() <= held.len() {
                    assert(before.skip(p).take(value.len() as int) =~= value);
                    assert(starts_with(before.skip(p), value));
                } else {
                    assert(value.take(before.skip(p).len() as int) =~= before.skip(p));
                    assert(begins(before.skip(p), value));
                }
            }
        }
    }
}

proof fn streams_stay_clean(tail: Seq<u8>, arrivals: Seq<Arrival>, value: Seq<u8>)
    requires
        value.len() > 0,
        mask_free(value),
        forall|i: int| 0 <= i < arrivals.len() ==> (#[trigger] arrivals[i]).secrets.contains(value),
    ensures
        ({
            let sent = logged(tail, arrivals).0.flatten();
            let held = logged(tail, arrivals).1;
            &&& arrivals.len() == 0 ==> sent.len() == 0
            &&& arrivals.len() > 0 ==> !occurs(sent + held, value)
            &&& forall|p: int| 0 <= p < sent.len() ==> !begins(#[trigger] (sent + held).skip(p), value)
        }),
    decreases arrivals.len(),
{
    if arrivals.len() == 0 {
        assert(Seq::<Seq<u8>>::empty().flatten() =~= Seq::<u8>::empty());
    } else {
        let short = arrivals.drop_last();
        let last = arrivals.last();
        assert(last == arrivals[arrivals.len() - 1]);
        assert forall|i: int| 0 <= i < short.len() implies (#[trigger] short[i]).secrets.contains(value) by {
            assert(short[i] == arrivals[i]);
        }
        streams_stay_clean(tail, short, value);
        let bodies = logged(tail, short).0;
        let sent = bodies.flatten();
        let held = logged(tail, short).1;
        let text = masked(held + last.chunk, last.secrets);
        let (out, rest) = passed_on(held, last.chunk, last.secrets);
        let after = logged(tail, arrivals).0.flatten();
        bodies.lemma_flatten_push(out);
        the_longest_beginning_is_held_back(held, last.chunk, last.secrets);
        masking_completes_no_value(sent, held, last.chunk, last.secrets, value);
        let all = after + rest;
        assert(all =~= sent + text);
        assert forall|p: int| 0 <= p < after.len() implies !begins(#[trigger] all.skip(p), value) by {
            if begins(all.skip(p), value) {
                let z = all.skip(p);
                assert(value.take(z.len() as int) == z);
                if p >= sent.len() {
                    assert(z =~= text.skip(p - sent.len()));
                    let k = choose|k: int| 0 <= k < last.secrets.len() && last.secrets[k] == value;
                    assert(begins(text.skip(p - sent.len()), last.secrets[k]));
                    assert(begins_any(text.skip(p - sent.len()), last.secrets));
                } else {
                    let x = sent.len() - p;
                    assert forall|j: int| 0 <= j < text.len() implies #[trigger] text[j] != 0x2au8 by {
                        assert(z[x + j] == text[j]);
                        assert(value.take(z.len() as int)[x + j] == value[x + j]);
                    }
                    masked_nothing(held + last.chunk, last.secrets);
                    let w = (sent + held).skip(p);
                    assert(value.take(w.len() as int) =~= w) by {
                        assert forall|j: int| 0 <= j < w.len() implies value[j] == w[j] by {
                            assert(value.take(z.len() as int)[j] == z[j]);
                        }
                    }
                    assert(begins((sent + held).skip(p), value));
                }
            }
        }
    }
}

proof fn prefixes_hold_no_more(a: Seq<u8>, b: Seq<u8>, value: Seq<u8>)
    requires
        occurs(a, value),
    ensures
        occurs(a + b, value),
{
    let i = choose|i: int| 0 <= i <= a.len() && #[trigger] starts_with(a.skip(i), value);
    assert((a + b).skip(i).take(value.len() as int) =~= a.skip(i).take(value.len() as int));
    assert(starts_with((a + b).skip(i), value));
}

/// A registered secret that is free of the mask's byte never occurs in what is streamed, however
/// the stream is cut into chunks: neither while the stream goes on nor once it has ended. It holds
/// from the chunk on with which the secret is registered, whatever else is registered meanwhile and
/// whatever was held back before.
pub proof fn no_registered_secret_is_logged(
    tail: Seq<u8>,
    arrivals: Seq<Arrival>,
    secrets: Seq<Seq<u8>>,
    value: Seq<u8>,
)
    requires
        value.len() > 0,
        mask_free(value),
        forall|i: int| 0 <= i < arrivals.len() ==> (#[trigger] arrivals[i]).secrets.contains(value),
        secrets.contains(value),
    ensures
        !occurs(logged(tail, arrivals).0.flatten(), value),
        !occurs(ended(tail, arrivals, secrets).flatten(), value),
{
    let bodies = logged(tail, arrivals).0;
    let sent = bodies.flatten();
    let held = logged(tail, arrivals).1;
    streams_stay_clean(tail, arrivals, value);
    masking_completes_no_value(sent, held, Seq::empty(), secrets, value);
    assert(held + Seq::<u8>::empty() =~= held);
    bodies.lemma_flatten_push(masked(held, secrets));
    if occurs(sent, value) {
        prefixes_hold_no_more(sent, masked(held, secrets), value);
    }
}

/// The chunks behind one another.
pub open spec fn arrived(arrivals: Seq<Arrival>) -> Seq<u8>
    decreases arrivals.len(),
{
    if arrivals.len() == 0 {
        Seq::empty()
    } else {
        arrived(arrivals.drop_last()) + arrivals.last().chunk
    }
}

proof fn parts_hold_no_more(a: Seq<u8>, b: Seq<u8>, c: Seq<u8>, value: Seq<u8>)
    requires
        occurs(b, value),
    ensures
        occurs(a + b + c, value),
{
    prefixes_hold_no_more(b, c, value);
    let all = a + b + c;
    assert(all.skip(a.len() as int) =~= b + c);
    carried(all, a.len() as int, value);
}

/// The text of a stream in which no registered secret occurs passes unchanged: what is held back
/// comes out with a later chunk, or with the end.
pub proof fn clean_streams_pass_unchanged(tail: Seq<u8>, arrivals: Seq<Arrival>, secrets: Seq<Seq<u8>>)
    requires
        forall|i: int, k: int|
            #![trigger arrivals[i].secrets[k]]
            0 <= i < arrivals.len() && 0 <= k < arrivals[i].secrets.len() ==> arrivals[i].secrets[k].len() == 0
                || !occurs(tail + arrived(arrivals), arrivals[i].secrets[k]),
        forall|k: int|
            0 <= k < secrets.len() ==> (#[trigger] secrets[k]).len() == 0 || !occurs(
                tail + arrived(arrivals),
                secrets[k],
            ),
    ensures
        ended(tail, arrivals, secrets).flatten() == tail + arrived(arrivals),
{
    let whole = tail + arrived(arrivals);
    let bodies = logged(tail, arrivals).0;
    let held = logged(tail, arrivals).1;
    clean_prefixes_pass(tail, arrivals, Seq::empty());
    assert(whole + Seq::<u8>::empty() =~= whole);
    assert forall|k: int| 0 <= k < secrets.len() implies (#[trigger] secrets[k]).len() == 0 || !occurs(
        held,
        secrets[k],
    ) by {
        if occurs(held, secrets[k]) {
            parts_hold_no_more(bodies.flatten(), held, Seq::empty(), secrets[k]);
            assert(bodies.flatten() + held + Seq::<u8>::empty() =~= whole);
        }
    }
    clean_text_stays(held, secrets);
    bodies.lemma_flatten_push(held);
}

proof fn clean_prefixes_pass(tail: Seq<u8>, arrivals: Seq<Arrival>, more: Seq<u8>)
    requires
        forall|i: int, k: int|
            #![trigger arrivals[i].secrets[k]]
            0 <= i < arrivals.len() && 0 <= k < arrivals[i].secrets.len() ==> arrivals[i].secrets[k].len() == 0
                || !occurs(tail + arrived(arrivals) + more, arrivals[i].secrets[k]),
    ensures
        logged(tail, arrivals).0.flatten() + logged(tail, arrivals).1 == tail + arrived(arrivals),
    decreases arrivals.len(),
{
    if arrivals.len() == 0 {
        assert(Seq::<Seq<u8>>::empty().flatten() =~= Seq::<u8>::empty());
        assert(tail + Seq::<u8>::empty() =~= tail);
        assert(Seq::<u8>::empty() + tail =~= tail);
    } else {
        let short = arrivals.drop_last();
        let last = arrivals.last();
        let n = arrivals.len() - 1;
        let whole = tail + arrived(arrivals) + more;
        assert(tail + arrived(short) + (last.chunk + more) =~= whole);
        assert forall|i: int, k: int|
            #![trigger short[i].secrets[k]]
            0 <= i < short.len() && 0 <= k < short[i].secrets.len() implies short[i].secrets[k].len() == 0 || !occurs(
            tail + arrived(short) + (last.chunk + more),
            short[i].secrets[k],
        ) by {
            assert(short[i] == arrivals[i]);
            assert(arrivals[i].secrets[k] == short[i].secrets[k]);
        }
        clean_prefixes_pass(tail, short, last.chunk + more);
        let bodies = logged(tail, short).0;
        let held = logged(tail, short).1;
        let text = held + last.chunk;
        assert forall|k: int| 0 <= k < last.secrets.len() implies (#[trigger] last.secrets[k]).len() == 0 || !occurs(
            text,
            last.secrets[k],
        ) by {
            assert(arrivals[n].secrets[k] == last.secrets[k]);
            if occurs(text, last.secrets[k]) {
                parts_hold_no_more(bodies.flatten(), text, more, last.secrets[k]);
                assert(bodies.flatten() + text + more =~= whole);
            }
        }
        clean_text_stays(text, last.secrets);
        let (out, rest) = passed_on(held, last.chunk, last.secrets);
        the_longest_beginning_is_held_back(held, last.chunk, last.secrets);
        bodies.lemma_flatten_push(out);
        assert(logged(tail, arrivals).0.flatten() + rest =~= bodies.flatten() + text);
        assert(bodies.flatten() + text =~= (bodies.flatten() + held) + last.chunk);
        assert((tail + arrived(short)) + last.chunk =~= tail + arrived(arrivals));
    }
}

/// What decompressing a gzip body gives.
pub uninterp spec fn gunzipped(data: Seq<u8>) -> Option<Seq<u8>>;

/// What compressing bytes with gzip at the default level gives.
pub uninterp spec fn gzipped(data: Seq<u8>) -> Option<Seq<u8>>;

/// `flate2`'s `GzEncoder` over the whole of `data` at the default level. What it returns depends
/// on `data` alone, and a body it returns decompresses to `data`. The text of an error is not
/// stated.
#[verifier::external_body]
fn gzip(data: &Vec<u8>) -> (r: Result<Vec<u8>, String>)
    ensures
        match r {
            Ok(v) => gzipped(data@) == Some(v@),
            Err(_) => gzipped(data@) is None,
        },
        r matches Ok(v) ==> gunzipped(v@) == Some(data@),
{
    let mut e = GzEncoder::new(Vec::new(), Compression::default());
    e.write_all(data).map_err(|e| e.to_string())?;
    e.finish().map_err(|e| e.to_string())
}

/// `flate2`'s `GzDecoder` read to its end.
#[verifier::external_body]
fn gunzip(data: &Vec<u8>) -> (r: Result<Vec<u8>, String>)
    ensures
        match r {
            Ok(v) => gunzipped(data@) == Some(v@),
            Err(_) => gunzipped(data@) is None,
        },
{
    let mut d = GzDecoder::new(data.as_slice());
    let mut out = Vec::new();
    d.read_to_end(&mut out).map_err(|e| e.to_string())?;
    Ok(out)
}

/// Why a chunk could not be stored or read back.
#[derive(Debug)]
pub enum LogError {
    Db(String),
    Store(String),
    Gzip(String),
}

impl LogError {
    pub open spec fn text(self) -> Seq<char> {
        match self {
            LogError::Db(m) => "db error: "@ + m@,
            LogError::Store(m) => "object store error: "@ + m@,
            LogError::Gzip(m) => "gzip error: "@ + m@,
        }
    }

    /// What went wrong.
    pub fn message(&self) -> (r: String)
        ensures
            r@ == self.text(),
    {
        match self {
            LogError::Db(m) => {
                let mut s: String = "db error: ".to_owned();
                s.append(m.as_str());
                s
            },
            LogError::Store(m) => {
                let mut s: String = "object store error: ".to_owned();
                s.append(m.as_str());
                s
            },
            LogError::Gzip(m) => {
                let mut s: String = "gzip error: ".to_owned();
                s.append(m.as_str());
                s
            },
        }
    }
}

/// The index row of a chunk.
#[derive(Debug)]
pub struct LogChunkMeta {
    pub seq: u64,
    pub byte_offset: u64,
    pub len: u64,
    pub object_key: String,
}

/// The key of a chunk's body.
pub open spec fn object_key_of(run: Seq<char>, step: Seq<char>, attempt: Seq<char>, seq: u64) -> Seq<char> {
    "logs/"@ + run + "/"@ + step + "/"@ + attempt + "/"@ + text::zero_padded(text::decimal(seq as nat), 8) + ".gz"@
}

/// The key of a chunk's body, its number padded to eight digits.
pub fn object_key(run: &str, step: &str, attempt: &str, seq: u64) -> (r: String)
    ensures
        r@ == object_key_of(run@, step@, attempt@, seq),
{
    let mut s: String = "logs/".to_owned();
    s.append(run);
    s.append("/");
    s.append(step);
    s.append("/");
    s.append(attempt);
    s.append("/");
    s.append(text::zero_padded_u64(seq, 8).as_str());
    s.append(".gz");
    s
}

/// The uncompressed length of the indexed chunks.
pub open spec fn indexed_len(chunks: Seq<LogChunkMeta>) -> nat
    decreases chunks.len(),
{
    if chunks.len() == 0 {
        0
    } else {
        indexed_len(chunks.drop_last()) + chunks.last().len as nat
    }
}

proof fn indexed_len_grows(chunks: Seq<LogChunkMeta>, i: int)
    requires
        0 <= i <= chunks.len(),
    ensures
        indexed_len(chunks.take(i)) <= indexed_len(chunks),
    decreases chunks.len(),
{
    if i == chunks.len() {
        assert(chunks.take(i) =~= chunks);
    } else {
        indexed_len_grows(chunks.drop_last(), i);
        assert(chunks.drop_last().take(i) =~= chunks.take(i));
    }
}

/// A chunk ready to be stored: its index row, the body as stored, and the body as streamed.
#[derive(Debug)]
pub struct PreparedChunk {
    pub meta: LogChunkMeta,
    pub stored: Vec<u8>,
    pub streamed: Vec<u8>,
}

impl PreparedChunk {
    /// The chunk stands behind what is indexed, and its stored body decompresses to the streamed one.
    pub open spec fn placed(self, run: Seq<char>, step: Seq<char>, attempt: Seq<char>, existing: Seq<LogChunkMeta>) -> bool {
        &&& gzipped(self.streamed@) == Some(self.stored@)
        &&& gunzipped(self.stored@) == Some(self.streamed@)
        &&& self.meta.seq == existing.len()
        &&& self.meta.byte_offset == indexed_len(existing)
        &&& self.meta.len == self.streamed@.len()
        &&& self.meta.object_key@ == object_key_of(run, step, attempt, self.meta.seq)
    }

    /// Whether the chunk adds anything to its stream. One that was held back whole adds nothing, and
    /// gets no row in the index.
    pub fn adds(&self) -> (r: bool)
        ensures
            r == (self.streamed@.len() > 0),
    {
        self.streamed.len() > 0
    }
}

/// The secret values to keep out of every stream.
#[derive(Debug)]
pub struct LogService {
    pub secrets: Vec<Vec<u8>>,
}

impl LogService {
    pub fn new() -> (r: LogService)
        ensures
            r.secrets@.len() == 0,
    {
        LogService { secrets: Vec::new() }
    }

    /// Registers a value to be masked from now on, unless it is empty or registered already.
    pub fn register_secret(&mut self, value: &Vec<u8>)
        ensures
            text::byte_views(final(self).secrets@) == (if value@.len() == 0 || text::byte_views(old(self).secrets@).contains(value@) {
                text::byte_views(old(self).secrets@)
            } else {
                text::byte_views(old(self).secrets@).push(value@)
            }),
    {
        let ghost before = text::byte_views(self.secrets@);
        if value.len() == 0 {
            return ;
        }
        let mut i: usize = 0;
        while i < self.secrets.len()
            invariant
                i <= self.secrets@.len(),
                before == text::byte_views(self.secrets@),
                *self == *old(self),
                forall|j: int| 0 <= j < i ==> #[trigger] before[j] != value@,
            decreases self.secrets@.len() - i,
        {
            if self.secrets[i].len() == value.len() && bytes_at(&self.secrets[i], value, 0) {
                proof {
                    let s = self.secrets@[i as int]@;
                    assert(s.skip(0).take(value@.len() as int) =~= s);
                    assert(before[i as int] == value@);
                }
                return ;
            }
            proof {
                let s = self.secrets@[i as int]@;
                if s == value@ {
                    assert(s.skip(0).take(value@.len() as int) =~= value@);
                }
            }
            i = i + 1;
        }
        self.secrets.push(value.clone());
        assert(text::byte_views(self.secrets@) =~= before.push(value@));
    }

    /// Masks every registered value.
    pub fn redact(&self, data: &Vec<u8>) -> (r: Vec<u8>)
        ensures
            r@ == masked(data@, text::byte_views(self.secrets@)),
    {
        let ghost all = text::byte_views(self.secrets@);
        let mut star: Vec<u8> = Vec::new();
        star.push(0x2a);
        star.push(0x2a);
        star.push(0x2a);
        assert(star@ =~= mask());
        let mut out: Vec<u8> = data.clone();
        assert(out@ =~= data@);
        let mut i: usize = 0;
        while i < self.secrets.len()
            invariant
                i <= self.secrets@.len(),
                all == text::byte_views(self.secrets@),
                star@ == mask(),
                out@ == masked(data@, all.take(i as int)),
            decreases self.secrets@.len() - i,
        {
            assert(all.take(i + 1).drop_last() =~= all.take(i as int));
            assert(all.take(i + 1).last() == self.secrets@[i as int]@);
            out = replace_bytes(&out, &self.secrets[i], &star);
            i = i + 1;
        }
        assert(all.take(i as int) =~= all);
        out
    }

    /// Where the end of a masked text starts that is to be held back.
    fn held_at(&self, text: &Vec<u8>) -> (r: usize)
        ensures
            r <= text@.len(),
            r == held_from(text@, text::byte_views(self.secrets@), 0),
    {
        let ghost all = text::byte_views(self.secrets@);
        let mut i: usize = 0;
        while i < text.len()
            invariant
                i <= text@.len(),
                all == text::byte_views(self.secrets@),
                held_from(text@, all, 0) == held_from(text@, all, i as int),
            decreases text@.len() - i,
        {
            let mut k: usize = 0;
            while k < self.secrets.len()
                invariant
                    i < text@.len(),
                    k <= self.secrets@.len(),
                    all == text::byte_views(self.secrets@),
                    held_from(text@, all, 0) == held_from(text@, all, i as int),
                    forall|j: int| 0 <= j < k ==> !begins(text@.skip(i as int), #[trigger] all[j]),
                decreases self.secrets@.len() - k,
            {
                assert(all[k as int] == self.secrets@[k as int]@);
                if begins_at(text, i, &self.secrets[k]) {
                    assert(begins_any(text@.skip(i as int), all));
                    return i;
                }
                k = k + 1;
            }
            i = i + 1;
        }
        i
    }

    /// A masked body as the next chunk of a stream whose index holds `existing`: numbered and placed
    /// behind what is indexed, and compressed.
    fn prepare(&self, run: &str, step: &str, attempt: &str, streamed: Vec<u8>, existing: &Vec<LogChunkMeta>) -> (r: Result<
        PreparedChunk,
        LogError,
    >)
        requires
            indexed_len(existing@) <= u64::MAX,
        ensures
            r is Ok <==> gzipped(streamed@) is Some,
            r matches Ok(p) ==> p.streamed@ == streamed@ && p.placed(run@, step@, attempt@, existing@),
            r matches Err(e) ==> e is Gzip,
    {
        let seq: u64 = existing.len() as u64;
        let mut byte_offset: u64 = 0;
        let mut i: usize = 0;
        while i < existing.len()
            invariant
                i <= existing@.len(),
                indexed_len(existing@) <= u64::MAX,
                byte_offset == indexed_len(existing@.take(i as int)),
            decreases existing@.len() - i,
        {
            proof {
                indexed_len_grows(existing@, i + 1);
                assert(existing@.take(i + 1).drop_last() =~= existing@.take(i as int));
                assert(existing@.take(i + 1).last() == existing@[i as int]);
            }
            byte_offset = byte_offset + existing[i].len;
            i = i + 1;
        }
        assert(existing@.take(i as int) =~= existing@);
        match gzip(&streamed) {
            Err(m) => Err(LogError::Gzip(m)),
            Ok(stored) => {
                let meta = LogChunkMeta {
                    seq,
                    byte_offset,
                    len: streamed.len() as u64,
                    object_key: object_key(run, step, attempt, seq),
                };
                Ok(PreparedChunk { meta, stored, streamed })
            },
        }
    }

    /// The next chunk of a stream whose index holds `existing` and whose end `tail` was held back,
    /// and the end that is held back now. Both are masked before anything is stored or streamed.
    pub fn append(
        &self,
        run: &str,
        step: &str,
        attempt: &str,
        tail: &Vec<u8>,
        chunk: &Vec<u8>,
        existing: &Vec<LogChunkMeta>,
    ) -> (r: Result<(PreparedChunk, Vec<u8>), LogError>)
        requires
            indexed_len(existing@) <= u64::MAX,
        ensures
            r is Ok <==> gzipped(passed_on(tail@, chunk@, text::byte_views(self.secrets@)).0) is Some,
            r matches Ok((p, held)) ==> {
                &&& (p.streamed@, held@) == passed_on(tail@, chunk@, text::byte_views(self.secrets@))
                &&& p.streamed@ + held@ == masked(tail@ + chunk@, text::byte_views(self.secrets@))
                &&& p.placed(run@, step@, attempt@, existing@)
            },
            r matches Err(e) ==> e is Gzip,
    {
        let mut all: Vec<u8> = tail.clone();
        let mut more: Vec<u8> = chunk.clone();
        assert(all@ =~= tail@);
        assert(more@ =~= chunk@);
        all.append(&mut more);
        assert(all@ =~= tail@ + chunk@);
        let mut streamed = self.redact(&all);
        let ghost text = streamed@;
        let cut: usize = self.held_at(&streamed);
        let held = streamed.split_off(cut);
        proof {
            the_longest_beginning_is_held_back(tail@, chunk@, text::byte_views(self.secrets@));
            assert(streamed@ =~= text.take(cut as int));
            assert(held@ =~= text.skip(cut as int));
        }
        match self.prepare(run, step, attempt, streamed, existing) {
            Err(e) => Err(e),
            Ok(p) => Ok((p, held)),
        }
    }

    /// The last chunk of a stream that has ended: what was held back of it, masked.
    pub fn finish(&self, run: &str, step: &str, attempt: &str, tail: &Vec<u8>, existing: &Vec<LogChunkMeta>) -> (r: Result<
        PreparedChunk,
        LogError,
    >)
        requires
            indexed_len(existing@) <= u64::MAX,
        ensures
            r is Ok <==> gzipped(masked(tail@, text::byte_views(self.secrets@))) is Some,
            r matches Ok(p) ==> p.streamed@ == masked(tail@, text::byte_views(self.secrets@)) && p.placed(
                run@,
                step@,
                attempt@,
                existing@,
            ),
            r matches Err(e) ==> e is Gzip,
    {
        let streamed = self.redact(tail);
        self.prepare(run, step, attempt, streamed, existing)
    }
}

/// The chunks numbered `from_seq` or later, in index order.
pub open spec fn pending(chunks: Seq<LogChunkMeta>, from_seq: u64) -> Seq<LogChunkMeta>
    decreases chunks.len(),
{
    if chunks.len() == 0 {
        chunks
    } else if chunks.last().seq >= from_seq {
        pending(chunks.drop_last(), from_seq).push(chunks.last())
    } else {
        pending(chunks.drop_last(), from_seq)
    }
}

/// The keys to fetch for a read from `from_seq` on, and the number to read on from afterwards.
pub fn read_from(chunks: &Vec<LogChunkMeta>, from_seq: u64) -> (r: (Vec<String>, u64))
    requires
        forall|i: int| 0 <= i < chunks@.len() ==> (#[trigger] chunks@[i]).seq < u64::MAX,
    ensures
        text::views(r.0@) == pending(chunks@, from_seq).map_values(|c: LogChunkMeta| c.object_key@),
        r.1 == (if pending(chunks@, from_seq).len() == 0 {
            from_seq as int
        } else {
            pending(chunks@, from_seq).last().seq + 1
        }),
{
    let mut keys: Vec<String> = Vec::new();
    let mut next: u64 = from_seq;
    let mut i: usize = 0;
    assert(text::views(keys@) =~= pending(chunks@.take(0), from_seq).map_values(|c: LogChunkMeta| c.object_key@));
    while i < chunks.len()
        invariant
            i <= chunks@.len(),
            forall|k: int| 0 <= k < chunks@.len() ==> (#[trigger] chunks@[k]).seq < u64::MAX,
            text::views(keys@) == pending(chunks@.take(i as int), from_seq).map_values(|c: LogChunkMeta| c.object_key@),
            next == (if pending(chunks@.take(i as int), from_seq).len() == 0 {
                from_seq as int
            } else {
                pending(chunks@.take(i as int), from_seq).last().seq + 1
            }),
        decreases chunks@.len() - i,
    {
        let ghost before = text::views(keys@);
        let ghost now = chunks@.take(i + 1);
        assert(now.drop_last() =~= chunks@.take(i as int));
        assert(now.last() == chunks@[i as int]);
        let c = &chunks[i];
        if c.seq >= from_seq {
            keys.push(c.object_key.clone());
            assert(text::views(keys@) =~= before.push(c.object_key@));
            assert(pending(now, from_seq).map_values(|c: LogChunkMeta| c.object_key@) =~= before.push(c.object_key@));
            next = c.seq + 1;
        }
        i = i + 1;
    }
    assert(chunks@.take(i as int) =~= chunks@);
    (keys, next)
}

/// The bodies behind one another, where each decompresses.
pub open spec fn joined(blobs: Seq<Seq<u8>>) -> Option<Seq<u8>>
    decreases blobs.len(),
{
    if blobs.len() == 0 {
        Some(Seq::empty())
    } else {
        match (joined(blobs.drop_last()), gunzipped(blobs.last())) {
            (Some(a), Some(b)) => Some(a + b),
            _ => None,
        }
    }
}

proof fn broken_body_breaks_all(blobs: Seq<Seq<u8>>, i: int)
    requires
        0 <= i <= blobs.len(),
        joined(blobs.take(i)) is None,
    ensures
        joined(blobs) is None,
    decreases blobs.len(),
{
    if i == blobs.len() {
        assert(blobs.take(i) =~= blobs);
    } else {
        assert(blobs.drop_last().take(i) =~= blobs.take(i));
        broken_body_breaks_all(blobs.drop_last(), i);
    }
}

/// The stored bodies, decompressed and put behind one another.
pub fn read_all(blobs: &Vec<Vec<u8>>) -> (r: Result<Vec<u8>, LogError>)
    ensures
        match r {
            Ok(v) => joined(text::byte_views(blobs@)) == Some(v@),
            Err(e) => e is Gzip && joined(text::byte_views(blobs@)) is None,
        },
{
    let ghost all = text::byte_views(blobs@);
    let mut out: Vec<u8> = Vec::new();
    let mut i: usize = 0;
    assert(joined(all.take(0)) == Some(out@));
    while i < blobs.len()
        invariant
            i <= blobs@.len(),
            all == text::byte_views(blobs@),
            joined(all.take(i as int)) == Some(out@),
        decreases blobs@.len() - i,
    {
        assert(all.take(i + 1).drop_last() =~= all.take(i as int));
        assert(all.take(i + 1).last() == blobs@[i as int]@);
        match gunzip(&blobs[i]) {
            Err(m) => {
                proof {
                    broken_body_breaks_all(all, i + 1);
                }
                return Err(LogError::Gzip(m));
            },
            Ok(body) => {
                let mut body: Vec<u8> = body;
                let ghost before = out@;
                let ghost bv = body@;
                out.append(&mut body);
                assert(out@ =~= before + bv);
            },
        }
        i = i + 1;
    }
    assert(all.take(i as int) =~= all);
    Ok(out)
}

/// What was streamed is what a later read gives back: the stored bodies of the chunks decompress
/// to the streamed bytes behind one another.
pub proof fn replay_gives_back_the_stream(streamed: Seq<Seq<u8>>, stored: Seq<Seq<u8>>)
    requires
        streamed.len() == stored.len(),
        forall|i: int| 0 <= i < stored.len() ==> gunzipped(#[trigger] stored[i]) == Some(streamed[i]),
    ensures
        joined(stored) == Some(streamed.flatten()),
    decreases stored.len(),
{
    if stored.len() == 0 {
        assert(streamed.flatten() =~= Seq::<u8>::empty());
    } else {
        let n = stored.len() - 1;
        assert forall|i: int| 0 <= i < n implies gunzipped(#[trigger] stored.drop_last()[i]) == Some(
            streamed.drop_last()[i],
        ) by {
            assert(gunzipped(stored[i]) == Some(streamed[i]));
        }
        replay_gives_back_the_stream(streamed.drop_last(), stored.drop_last());
        assert(streamed =~= streamed.drop_last() + seq![streamed.last()]);
        streamed.drop_last().lemma_flatten_push(streamed.last());
        assert(streamed.drop_last().push(streamed.last()) =~= streamed);
        assert(gunzipped(stored[n]) == Some(streamed[n]));
    }
}

/// The bodies that add something.
pub open spec fn adding(bodies: Seq<Seq<u8>>) -> Seq<Seq<u8>>
    decreases bodies.len(),
{
    if bodies.len() == 0 {
        bodies
    } else if bodies.last().len() > 0 {
        adding(bodies.drop_last()).push(bodies.last())
    } else {
        adding(bodies.drop_last())
    }
}

proof fn the_empty_add_nothing(bodies: Seq<Seq<u8>>)
    ensures
        adding(bodies).flatten() == bodies.flatten(),
    decreases bodies.len(),
{
    if bodies.len() > 0 {
        let rest = bodies.drop_last();
        the_empty_add_nothing(rest);
        rest.lemma_flatten_push(bodies.last());
        assert(rest.push(bodies.last()) =~= bodies);
        adding(rest).lemma_flatten_push(bodies.last());
        assert(bodies.last().len() == 0 ==> rest.flatten() + bodies.last() =~= rest.flatten());
    }
}

/// A registered secret that is free of the mask's byte never occurs in what a later read gives
/// back. `stored` are the stored bodies of the chunks that add something.
pub proof fn no_registered_secret_is_read_back(
    tail: Seq<u8>,
    arrivals: Seq<Arrival>,
    secrets: Seq<Seq<u8>>,
    value: Seq<u8>,
    stored: Seq<Seq<u8>>,
)
    requires
        value.len() > 0,
        mask_free(value),
        forall|i: int| 0 <= i < arrivals.len() ==> (#[trigger] arrivals[i]).secrets.contains(value),
        secrets.contains(value),
        stored.len() == adding(ended(tail, arrivals, secrets)).len(),
        forall|i: int|
            0 <= i < stored.len() ==> gunzipped(#[trigger] stored[i]) == Some(
                adding(ended(tail, arrivals, secrets))[i],
            ),
    ensures
        joined(stored) == Some(ended(tail, arrivals, secrets).flatten()),
        !occurs(joined(stored)->0, value),
{
    no_registered_secret_is_logged(tail, arrivals, secrets, value);
    replay_gives_back_the_stream(adding(ended(tail, arrivals, secrets)), stored);
    the_empty_add_nothing(ended(tail, arrivals, secrets));
}

/// The chunks are numbered in index order from nought.
pub open spec fn numbered(chunks: Seq<LogChunkMeta>) -> bool {
    forall|i: int| 0 <= i < chunks.len() ==> (#[trigger] chunks[i]).seq == i
}

proof fn pending_is_the_rest(chunks: Seq<LogChunkMeta>, from_seq: u64)
    requires
        numbered(chunks),
    ensures
        pending(chunks, from_seq) == (if from_seq <= chunks.len() {
            chunks.skip(from_seq as int)
        } else {
            Seq::empty()
        }),
    decreases chunks.len(),
{
    if chunks.len() > 0 {
        let rest = chunks.drop_last();
        assert(numbered(rest)) by {
            assert forall|i: int| 0 <= i < rest.len() implies (#[trigger] rest[i]).seq == i by {
                assert(chunks[i].seq == i);
            }
        }
        pending_is_the_rest(rest, from_seq);
        assert(chunks[chunks.len() - 1].seq == chunks.len() - 1);
        if from_seq <= rest.len() {
            assert(rest.skip(from_seq as int).push(chunks.last()) =~= chunks.skip(from_seq as int));
        } else if from_seq == chunks.len() {
            assert(chunks.skip(from_seq as int) =~= Seq::<LogChunkMeta>::empty());
        }
    } else if from_seq == 0 {
        assert(chunks.skip(0) =~= chunks);
    }
}

/// Successive reads of a growing stream neither repeat nor skip a chunk: a read from any number,
/// and later one from the number that it returned, together give what one read of the later index
/// from the first number gives.
pub proof fn reads_join_up(chunks: Seq<LogChunkMeta>, later: Seq<LogChunkMeta>, from: u64, next: u64)
    requires
        numbered(later),
        chunks.len() <= later.len(),
        later.take(chunks.len() as int) == chunks,
        next == (if pending(chunks, from).len() == 0 {
            from as int
        } else {
            pending(chunks, from).last().seq + 1
        }),
    ensures
        pending(chunks, from) + pending(later, next) == pending(later, from),
{
    assert(numbered(chunks)) by {
        assert forall|i: int| 0 <= i < chunks.len() implies (#[trigger] chunks[i]).seq == i by {
            assert(later.take(chunks.len() as int)[i] == later[i]);
        }
    }
    pending_is_the_rest(chunks, from);
    pending_is_the_rest(later, from);
    pending_is_the_rest(later, next);
    if from < chunks.len() {
        let rest = chunks.skip(from as int);
        assert(rest.last() == chunks[chunks.len() - 1]);
        assert(next == chunks.len());
        assert(rest + later.skip(next as int) =~= later.skip(from as int)) by {
            assert forall|k: int| 0 <= k < rest.len() implies rest[k] == later.skip(from as int)[k] by {
                assert(later.take(chunks.len() as int)[from + k] == later[from + k]);
            }
        }
    } else {
        assert(pending(chunks, from) =~= Seq::<LogChunkMeta>::empty());
        assert(pending(chunks, from) + pending(later, next) =~= pending(later, from));
    }
}

/// Where a value occurs first, three asterisks stand in its place: what comes before it stays, and
/// what comes behind it is masked as if it stood alone.
pub proof fn only_the_value_is_masked(before: Seq<u8>, value: Seq<u8>, behind: Seq<u8>)
    requires
        value.len() > 0,
        forall|i: int| 0 <= i < before.len() ==> !starts_with(#[trigger] (before + value + behind).skip(i), value),
    ensures
        replaced(before + value + behind, value, mask()) == before + seq![0x2au8, 0x2au8, 0x2au8] + replaced(
            behind,
            value,
            mask(),
        ),
    decreases before.len(),
{
    let all = before + value + behind;
    if before.len() == 0 {
        assert(all.take(value.len() as int) =~= value);
        assert(all.skip(value.len() as int) =~= behind);
        assert(before + seq![0x2au8, 0x2au8, 0x2au8] =~= mask());
    } else {
        let rest = before.skip(1);
        assert(all.skip(0) =~= all);
        assert(!starts_with(all.skip(0), value));
        assert(all.skip(1) =~= rest + value + behind);
        assert forall|i: int| 0 <= i < rest.len() implies !starts_with(
            #[trigger] (rest + value + behind).skip(i),
            value,
        ) by {
            assert((rest + value + behind).skip(i) =~= all.skip(i + 1));
        }
        only_the_value_is_masked(rest, value, behind);
        assert(seq![all[0]] + (rest + seq![0x2au8, 0x2au8, 0x2au8] + replaced(behind, value, mask())) =~= before + seq![
            0x2au8,
            0x2au8,
            0x2au8,
        ] + replaced(behind, value, mask()));
    }
}

/// Every registered value is masked, each in what the masking of the earlier ones left.
pub proof fn every_value_is_masked(data: Seq<u8>, secrets: Seq<Seq<u8>>, value: Seq<u8>)
    ensures
        masked(data, Seq::empty()) == data,
        masked(data, secrets.push(value)) == replaced(masked(data, secrets), value, mask()),
{
    assert(secrets.push(value).drop_last() =~= secrets);
}

/// The next chunk of a stream has the next number, starts where the last one ends, and is kept
/// under another key.
pub proof fn chunks_stand_behind_one_another(
    run: Seq<char>,
    step: Seq<char>,
    attempt: Seq<char>,
    existing: Seq<LogChunkMeta>,
    p: PreparedChunk,
    q: PreparedChunk,
)
    requires
        p.placed(run, step, attempt, existing),
        q.placed(run, step, attempt, existing.push(p.meta)),
    ensures
        q.meta.seq == p.meta.seq + 1,
        q.meta.byte_offset == p.meta.byte_offset + p.meta.len,
        p.meta.len == p.streamed@.len(),
        q.meta.object_key@ != p.meta.object_key@,
        gunzipped(p.stored@) == Some(p.streamed@),
{
    assert(existing.push(p.meta).drop_last() =~= existing);
    if q.meta.object_key@ == p.meta.object_key@ {
        keys_name_their_chunk(run, step, attempt, p.meta.seq, q.meta.seq);
    }
}

proof fn zeros_in_front_add_nothing(zeros: Seq<char>, digits: Seq<char>)
    requires
        forall|i: int| 0 <= i < zeros.len() ==> zeros[i] == '0',
    ensures
        text::worth(zeros + digits) == text::worth(digits),
    decreases zeros.len() + digits.len(),
{
    let all = zeros + digits;
    if digits.len() > 0 {
        assert(all.drop_last() =~= zeros + digits.drop_last());
        zeros_in_front_add_nothing(zeros, digits.drop_last());
    } else if zeros.len() > 0 {
        assert(all.drop_last() =~= zeros.drop_last() + digits);
        assert(all.last() == zeros[zeros.len() - 1]);
        zeros_in_front_add_nothing(zeros.drop_last(), digits);
    }
}

/// No two chunks of a stream are kept under one key: a key names the run, the step, the attempt
/// and the number of its chunk.
pub proof fn keys_name_their_chunk(run: Seq<char>, step: Seq<char>, attempt: Seq<char>, a: u64, b: u64)
    ensures
        object_key_of(run, step, attempt, a) == "logs/"@ + run + "/"@ + step + "/"@ + attempt + "/"@ + text::zero_padded(
            text::decimal(a as nat),
            8,
        ) + ".gz"@,
        object_key_of(run, step, attempt, a) == object_key_of(run, step, attempt, b) ==> a == b,
{
    if object_key_of(run, step, attempt, a) == object_key_of(run, step, attempt, b) {
        let front = "logs/"@ + run + "/"@ + step + "/"@ + attempt + "/"@;
        let x = text::zero_padded(text::decimal(a as nat), 8);
        let y = text::zero_padded(text::decimal(b as nat), 8);
        let ka = object_key_of(run, step, attempt, a);
        let kb = object_key_of(run, step, attempt, b);
        assert(ka.subrange(front.len() as int, ka.len() - ".gz"@.len()) =~= x);
        assert(kb.subrange(front.len() as int, kb.len() - ".gz"@.len()) =~= y);
        padded_numbers_keep_their_worth(a as nat);
        padded_numbers_keep_their_worth(b as nat);
    }
}

proof fn padded_numbers_keep_their_worth(n: nat)
    ensures
        text::worth(text::zero_padded(text::decimal(n), 8)) == n,
{
    let d = text::decimal(n);
    text::decimals_stand_for_their_number(n);
    if d.len() < 8 {
        let zeros = Seq::new((8 - d.len()) as nat, |i: int| '0');
        zeros_in_front_add_nothing(zeros, d);
    }
}

/// A read from a number on gives every chunk from that number on, in order.
pub proof fn reads_give_everything_from_their_number(chunks: Seq<LogChunkMeta>, from: u64, i: int)
    requires
        numbered(chunks),
        from <= i < chunks.len(),
    ensures
        pending(chunks, from).len() == chunks.len() - from,
        pending(chunks, from)[i - from] == chunks[i],
{
    pending_is_the_rest(chunks, from);
}

/// Bodies are put behind one another in their order, and one that does not decompress fails the
/// whole read.
pub proof fn bodies_are_joined_in_order(blobs: Seq<Seq<u8>>, blob: Seq<u8>)
    ensures
        joined(blobs) is Some && gunzipped(blob) is Some ==> joined(blobs.push(blob)) == Some(
            joined(blobs)->0 + gunzipped(blob)->0,
        ),
        joined(blobs) is None || gunzipped(blob) is None ==> joined(blobs.push(blob)) is None,
        joined(Seq::empty()) == Some(Seq::<u8>::empty()),
{
    assert(blobs.push(blob).drop_last() =~= blobs);
}

} // verus!
