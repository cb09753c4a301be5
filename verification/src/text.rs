//! Character-sequence vocabulary: what it means for a text to start with, contain, be split at
//! or be stripped of another, and the executable functions that compute it.

use vstd::prelude::*;

verus! {

/// `String::push` appends one character.
pub assume_specification[ String::push ](s: &mut String, c: char)
    ensures
        final(s)@ == old(s)@.push(c),
;

/// The texts of a sequence of strings.
pub open spec fn views(v: Seq<String>) -> Seq<Seq<char>> {
    v.map_values(|s: String| s@)
}

/// The contents of a sequence of byte strings.
pub open spec fn byte_views(v: Seq<Vec<u8>>) -> Seq<Seq<u8>> {
    v.map_values(|b: Vec<u8>| b@)
}

/// The model of an optional borrowed text.
pub open spec fn str_opt(o: Option<&str>) -> Option<Seq<char>> {
    match o {
        Some(s) => Some(s@),
        None => None,
    }
}

/// The text of an optional string.
pub open spec fn opt_view(o: Option<String>) -> Option<Seq<char>> {
    match o {
        Some(s) => Some(s@),
        None => None,
    }
}

pub open spec fn has_prefix(s: Seq<char>, p: Seq<char>) -> bool {
    p.len() <= s.len() && s.subrange(0, p.len() as int) == p
}

pub open spec fn has_suffix(s: Seq<char>, p: Seq<char>) -> bool {
    p.len() <= s.len() && s.subrange(s.len() - p.len(), s.len() as int) == p
}

/// `p` occurs in `s` at position `i`.
pub open spec fn occurs_at(s: Seq<char>, p: Seq<char>, i: int) -> bool {
    0 <= i <= s.len() - p.len() && s.subrange(i, i + p.len()) == p
}

pub open spec fn contains(s: Seq<char>, p: Seq<char>) -> bool {
    exists|i: int| occurs_at(s, p, i)
}

/// `s` without the prefix `p`, where it has it.
pub open spec fn without_prefix(s: Seq<char>, p: Seq<char>) -> Option<Seq<char>> {
    if has_prefix(s, p) {
        Some(s.subrange(p.len() as int, s.len() as int))
    } else {
        None
    }
}

/// `s` without the suffix `p`, where it has it.
pub open spec fn without_suffix(s: Seq<char>, p: Seq<char>) -> Option<Seq<char>> {
    if has_suffix(s, p) {
        Some(s.subrange(0, s.len() - p.len()))
    } else {
        None
    }
}

/// `s` without its trailing run of `c`.
pub open spec fn trim_end(s: Seq<char>, c: char) -> Seq<char>
    decreases s.len(),
{
    if s.len() > 0 && s.last() == c {
        trim_end(s.drop_last(), c)
    } else {
        s
    }
}

/// `s` without its leading run of `c`.
pub open spec fn trim_start(s: Seq<char>, c: char) -> Seq<char>
    decreases s.len(),
{
    if s.len() > 0 && s.first() == c {
        trim_start(s.drop_first(), c)
    } else {
        s
    }
}

/// The pieces of `s` between occurrences of `c`; a text without `c` is one piece.
pub open spec fn split(s: Seq<char>, c: char) -> Seq<Seq<char>>
    decreases s.len(),
{
    if s.len() == 0 {
        seq![Seq::<char>::empty()]
    } else {
        let rest = split(s.drop_last(), c);
        if s.last() == c {
            rest.push(Seq::<char>::empty())
        } else {
            rest.drop_last().push(rest.last().push(s.last()))
        }
    }
}

/// The pieces with `sep` between each two.
pub open spec fn join(pieces: Seq<Seq<char>>, sep: Seq<char>) -> Seq<char>
    decreases pieces.len(),
{
    if pieces.len() == 0 {
        Seq::<char>::empty()
    } else if pieces.len() == 1 {
        pieces[0]
    } else {
        join(pieces.drop_last(), sep) + sep + pieces.last()
    }
}

/// The decimal digits of `n`.
pub open spec fn decimal(n: nat) -> Seq<char>
    decreases n,
{
    if n < 10 {
        seq![digit(n)]
    } else {
        decimal(n / 10).push(digit(n % 10))
    }
}

/// The character of a decimal digit.
pub open spec fn digit(n: nat) -> char {
    ('0' as u32 + n) as char
}

/// A decimal number with its sign.
pub open spec fn signed_decimal(n: int) -> Seq<char> {
    if n < 0 {
        seq!['-'] + decimal((-n) as nat)
    } else {
        decimal(n as nat)
    }
}

/// `s` filled up on the left with zeros to at least `width` characters.
pub open spec fn zero_padded(s: Seq<char>, width: nat) -> Seq<char> {
    if s.len() >= width {
        s
    } else {
        Seq::new((width - s.len()) as nat, |i: int| '0') + s
    }
}

/// A character with the Unicode property `White_Space`.
pub open spec fn is_whitespace(c: char) -> bool {
    let n = c as u32;
    ||| 0x9 <= n <= 0xd
    ||| n == 0x20
    ||| n == 0x85
    ||| n == 0xa0
    ||| n == 0x1680
    ||| 0x2000 <= n <= 0x200a
    ||| n == 0x2028
    ||| n == 0x2029
    ||| n == 0x202f
    ||| n == 0x205f
    ||| n == 0x3000
}

/// `s` without leading and trailing whitespace.
pub open spec fn trimmed(s: Seq<char>) -> Seq<char>
    decreases s.len(),
{
    if s.len() > 0 && is_whitespace(s.first()) {
        trimmed(s.drop_first())
    } else if s.len() > 0 && is_whitespace(s.last()) {
        trimmed(s.drop_last())
    } else {
        s
    }
}

/// An ASCII letter in lower case; any other character as it is.
pub open spec fn ascii_lower(c: char) -> char {
    if 'A' <= c <= 'Z' {
        (c as u32 + 32) as char
    } else {
        c
    }
}

/// Equal but for the case of ASCII letters.
pub open spec fn eq_ignoring_ascii_case(a: Seq<char>, b: Seq<char>) -> bool {
    a.len() == b.len() && forall|i: int| 0 <= i < a.len() ==> ascii_lower(a[i]) == ascii_lower(b[i])
}

/// Lexicographic order by code point, which is the byte order of the UTF-8 encodings.
pub open spec fn lex_le(a: Seq<char>, b: Seq<char>) -> bool
    decreases a.len(),
{
    if a.len() == 0 {
        true
    } else if b.len() == 0 {
        false
    } else if a[0] != b[0] {
        a[0] < b[0]
    } else {
        lex_le(a.drop_first(), b.drop_first())
    }
}

/// The order is reflexive.
pub proof fn lex_le_reflexive(a: Seq<char>)
    ensures
        lex_le(a, a),
    decreases a.len(),
{
    if a.len() > 0 {
        lex_le_reflexive(a.drop_first());
    }
}

/// The order is total.
pub proof fn lex_le_total(a: Seq<char>, b: Seq<char>)
    ensures
        lex_le(a, b) || lex_le(b, a),
    decreases a.len(),
{
    if a.len() > 0 && b.len() > 0 {
        lex_le_total(a.drop_first(), b.drop_first());
    }
}

/// The order is transitive.
pub proof fn lex_le_transitive(a: Seq<char>, b: Seq<char>, c: Seq<char>)
    requires
        lex_le(a, b),
        lex_le(b, c),
    ensures
        lex_le(a, c),
    decreases a.len(),
{
    if a.len() > 0 && b.len() > 0 && c.len() > 0 {
        if a[0] == b[0] && b[0] == c[0] {
            lex_le_transitive(a.drop_first(), b.drop_first(), c.drop_first());
        }
    }
}

/// The order is antisymmetric: texts in both orders are equal.
pub proof fn lex_le_antisymmetric(a: Seq<char>, b: Seq<char>)
    requires
        lex_le(a, b),
        lex_le(b, a),
    ensures
        a == b,
    decreases a.len(),
{
    if a.len() > 0 && b.len() > 0 {
        lex_le_antisymmetric(a.drop_first(), b.drop_first());
        assert(a =~= seq![a[0]] + a.drop_first());
        assert(b =~= seq![b[0]] + b.drop_first());
    } else {
        assert(a =~= b);
    }
}

/// Whether two texts are equal.
pub fn str_eq(a: &str, b: &str) -> (r: bool)
    ensures
        r == (a@ == b@),
{
    a.to_owned() == b.to_owned()
}

/// The characters of a text.
pub fn to_chars(s: &str) -> (r: Vec<char>)
    ensures
        r@ == s@,
{
    let mut out: Vec<char> = Vec::new();
    for c in it: s.chars()
        invariant
            it.seq() == s@,
            out@ == s@.take(it.index() as int),
    {
        out.push(c);
        assert(s@.take(it.index() as int + 1) =~= s@.take(it.index() as int).push(c));
    }
    assert(s@.take(s@.len() as int) =~= s@);
    out
}

/// The text of the characters from `from` up to `to`.
pub fn from_chars(v: &Vec<char>, from: usize, to: usize) -> (r: String)
    requires
        from <= to <= v@.len(),
    ensures
        r@ == v@.subrange(from as int, to as int),
{
    let mut s = String::new();
    let mut i: usize = from;
    while i < to
        invariant
            from <= i <= to <= v@.len(),
            s@ == v@.subrange(from as int, i as int),
        decreases to - i,
    {
        s.push(v[i]);
        assert(v@.subrange(from as int, i + 1) =~= v@.subrange(from as int, i as int).push(v@[i as int]));
        i = i + 1;
    }
    s
}

/// Whether `p` occurs in `s` at position `i`.
pub fn matches_at(s: &Vec<char>, p: &Vec<char>, i: usize) -> (r: bool)
    ensures
        r == occurs_at(s@, p@, i as int),
{
    if p.len() > s.len() || i > s.len() - p.len() {
        return false;
    }
    let n: usize = s.len();
    let mut k: usize = 0;
    while k < p.len()
        invariant
            k <= p@.len(),
            n == s@.len(),
            i + p@.len() <= n,
            forall|j: int| 0 <= j < k ==> s@[i + j] == p@[j],
        decreases p@.len() - k,
    {
        if s[i + k] != p[k] {
            assert(s@.subrange(i as int, i + p@.len())[k as int] != p@[k as int]);
            return false;
        }
        k = k + 1;
    }
    assert(s@.subrange(i as int, i + p@.len()) =~= p@);
    true
}

/// Whether `s` starts with `p`.
pub fn starts_with(s: &str, p: &str) -> (r: bool)
    ensures
        r == has_prefix(s@, p@),
{
    matches_at(&to_chars(s), &to_chars(p), 0)
}

/// Whether `s` ends with `p`.
pub fn ends_with(s: &str, p: &str) -> (r: bool)
    ensures
        r == has_suffix(s@, p@),
{
    let sc = to_chars(s);
    let pc = to_chars(p);
    if pc.len() > sc.len() {
        return false;
    }
    matches_at(&sc, &pc, sc.len() - pc.len())
}

/// Whether `p` occurs in `s`.
pub fn has_substring(s: &str, p: &str) -> (r: bool)
    ensures
        r == contains(s@, p@),
{
    let sc = to_chars(s);
    let pc = to_chars(p);
    if pc.len() > sc.len() {
        return false;
    }
    let mut i: usize = 0;
    let n: usize = sc.len() - pc.len();
    while i <= n
        invariant
            sc@ == s@,
            pc@ == p@,
            n == sc@.len() - pc@.len(),
            i <= n + 1,
            forall|j: int| 0 <= j < i ==> !occurs_at(s@, p@, j),
        decreases n + 1 - i,
    {
        if matches_at(&sc, &pc, i) {
            return true;
        }
        if i == n {
            return false;
        }
        i = i + 1;
    }
    false
}

/// `s` without the prefix `p`, where it has it.
pub fn strip_prefix(s: &str, p: &str) -> (r: Option<String>)
    ensures
        opt_view(r) == without_prefix(s@, p@),
{
    if starts_with(s, p) {
        let sc = to_chars(s);
        let pc = to_chars(p);
        Some(from_chars(&sc, pc.len(), sc.len()))
    } else {
        None
    }
}

/// `s` without the suffix `p`, where it has it.
pub fn strip_suffix(s: &str, p: &str) -> (r: Option<String>)
    ensures
        opt_view(r) == without_suffix(s@, p@),
{
    if ends_with(s, p) {
        let sc = to_chars(s);
        let pc = to_chars(p);
        Some(from_chars(&sc, 0, sc.len() - pc.len()))
    } else {
        None
    }
}

/// `s` without its trailing run of `c`.
pub fn trim_end_char(s: &str, c: char) -> (r: String)
    ensures
        r@ == trim_end(s@, c),
{
    let sc = to_chars(s);
    let mut n: usize = sc.len();
    assert(sc@.take(n as int) =~= s@);
    while n > 0 && sc[n - 1] == c
        invariant
            sc@ == s@,
            n <= sc@.len(),
            trim_end(sc@.take(n as int), c) == trim_end(s@, c),
        decreases n,
    {
        assert(sc@.take(n as int).drop_last() =~= sc@.take(n - 1));
        n = n - 1;
    }
    assert(sc@.subrange(0, n as int) =~= sc@.take(n as int));
    from_chars(&sc, 0, n)
}

/// `s` without its leading run of `c`.
pub fn trim_start_char(s: &str, c: char) -> (r: String)
    ensures
        r@ == trim_start(s@, c),
{
    let sc = to_chars(s);
    let mut n: usize = 0;
    assert(sc@.skip(0) =~= s@);
    while n < sc.len() && sc[n] == c
        invariant
            sc@ == s@,
            n <= sc@.len(),
            trim_start(sc@.skip(n as int), c) == trim_start(s@, c),
        decreases sc@.len() - n,
    {
        assert(sc@.skip(n as int).drop_first() =~= sc@.skip(n + 1));
        n = n + 1;
    }
    assert(sc@.subrange(n as int, sc@.len() as int) =~= sc@.skip(n as int));
    from_chars(&sc, n, sc.len())
}

/// A split text has at least one piece.
pub proof fn split_nonempty(s: Seq<char>, c: char)
    ensures
        split(s, c).len() > 0,
    decreases s.len(),
{
    if s.len() > 0 {
        split_nonempty(s.drop_last(), c);
    }
}

/// No piece of a split text holds the separator.
pub proof fn pieces_hold_no_separator(s: Seq<char>, c: char, i: int)
    requires
        0 <= i < split(s, c).len(),
    ensures
        !split(s, c)[i].contains(c),
    decreases s.len(),
{
    if s.len() > 0 {
        let rest = split(s.drop_last(), c);
        split_nonempty(s.drop_last(), c);
        if i < rest.len() {
            pieces_hold_no_separator(s.drop_last(), c, i);
            if i == rest.len() - 1 && s.last() != c {
                assert forall|k: int| 0 <= k < split(s, c)[i].len() implies split(s, c)[i][k] != c by {
                    if k < rest.last().len() {
                        assert(rest.last()[k] == split(s, c)[i][k]);
                    }
                }
            }
        }
    }
}

/// Joining the pieces of a split text with the separator gives the text back.
pub proof fn join_of_split(s: Seq<char>, c: char)
    ensures
        join(split(s, c), seq![c]) == s,
    decreases s.len(),
{
    if s.len() > 0 {
        let rest = split(s.drop_last(), c);
        split_nonempty(s.drop_last(), c);
        join_of_split(s.drop_last(), c);
        if s.last() == c {
            let whole = rest.push(Seq::<char>::empty());
            assert(whole.drop_last() =~= rest);
            assert(join(whole, seq![c]) =~= s);
        } else {
            let whole = rest.drop_last().push(rest.last().push(s.last()));
            assert(whole.drop_last() =~= rest.drop_last());
            if rest.len() > 1 {
                assert(join(whole, seq![c]) =~= join(rest, seq![c]).push(s.last()));
            }
            assert(join(whole, seq![c]) =~= s);
        }
    }
}

/// The pieces of `s` between occurrences of `c`.
pub fn split_char(s: &str, c: char) -> (r: Vec<String>)
    ensures
        views(r@) == split(s@, c),
{
    let mut out: Vec<String> = Vec::new();
    let mut piece = String::new();
    for x in it: s.chars()
        invariant
            it.seq() == s@,
            views(out@).push(piece@) == split(s@.take(it.index() as int), c),
    {
        let ghost seen = s@.take(it.index() as int);
        let ghost next = s@.take(it.index() as int + 1);
        proof {
            split_nonempty(seen, c);
            assert(next.drop_last() =~= seen);
            assert(next.last() == x);
            assert(split(seen, c).drop_last() =~= views(out@));
            assert(split(seen, c).last() == piece@);
        }
        if x == c {
            let ghost before = out@;
            let ghost last = piece@;
            out.push(piece);
            piece = String::new();
            assert(views(out@) =~= views(before).push(last));
            assert(views(out@).push(piece@) =~= split(next, c));
        } else {
            piece.push(x);
            assert(views(out@).push(piece@) =~= split(next, c));
        }
    }
    assert(s@.take(s@.len() as int) =~= s@);
    let ghost before = out@;
    let ghost last = piece@;
    out.push(piece);
    assert(views(out@) =~= views(before).push(last));
    out
}

/// The pieces with `sep` between each two.
pub fn join_strings(pieces: &Vec<String>, sep: &str) -> (r: String)
    ensures
        r@ == join(views(pieces@), sep@),
{
    let mut s = String::new();
    let mut i: usize = 0;
    while i < pieces.len()
        invariant
            i <= pieces@.len(),
            s@ == join(views(pieces@).take(i as int), sep@),
        decreases pieces@.len() - i,
    {
        let ghost next = views(pieces@).take(i + 1);
        assert(next.drop_last() =~= views(pieces@).take(i as int));
        assert(next.last() == pieces@[i as int]@);
        if i > 0 {
            s.append(sep);
        } else {
            assert(next[0] == pieces@[0]@);
        }
        s.append(pieces[i].as_str());
        assert(s@ =~= join(next, sep@));
        i = i + 1;
    }
    assert(views(pieces@).take(i as int) =~= views(pieces@));
    s
}

/// A decimal number has at least one digit.
pub proof fn decimal_nonempty(n: nat)
    ensures
        decimal(n).len() > 0,
{
}

/// Every character of a decimal number is a digit.
pub proof fn decimal_digits(n: nat, i: int)
    requires
        0 <= i < decimal(n).len(),
    ensures
        '0' <= decimal(n)[i] <= '9',
    decreases n,
{
    if n >= 10 && i < decimal(n).len() - 1 {
        decimal_digits(n / 10, i);
    }
}

fn digit_char(d: u64) -> (c: char)
    requires
        d < 10,
    ensures
        c == digit(d as nat),
{
    if d == 0 {
        '0'
    } else if d == 1 {
        '1'
    } else if d == 2 {
        '2'
    } else if d == 3 {
        '3'
    } else if d == 4 {
        '4'
    } else if d == 5 {
        '5'
    } else if d == 6 {
        '6'
    } else if d == 7 {
        '7'
    } else if d == 8 {
        '8'
    } else {
        '9'
    }
}

/// The decimal digits of `n`.
pub fn u64_to_string(n: u64) -> (r: String)
    ensures
        r@ == decimal(n as nat),
    decreases n,
{
    if n < 10 {
        let mut s = String::new();
        s.push(digit_char(n));
        assert(s@ =~= decimal(n as nat));
        s
    } else {
        let mut s = u64_to_string(n / 10);
        s.push(digit_char(n % 10));
        s
    }
}

/// A decimal number with its sign.
pub fn i64_to_string(n: i64) -> (r: String)
    ensures
        r@ == signed_decimal(n as int),
{
    if n >= 0 {
        return u64_to_string(n as u64);
    }
    let magnitude: u64 = (-(n + 1)) as u64 + 1;
    let mut s = String::new();
    s.push('-');
    s.append(u64_to_string(magnitude).as_str());
    assert(s@ =~= seq!['-'] + decimal(magnitude as nat));
    s
}

/// `n` in decimal, filled up on the left with zeros to at least `width` digits.
pub fn zero_padded_u64(n: u64, width: usize) -> (r: String)
    ensures
        r@ == zero_padded(decimal(n as nat), width as nat),
{
    let digits = u64_to_string(n);
    let len: usize = digits.as_str().unicode_len();
    let mut s = String::new();
    let mut i: usize = len;
    while i < width
        invariant
            len == digits@.len(),
            i <= width || i == len,
            len <= i,
            s@ == Seq::new((i - len) as nat, |k: int| '0'),
        decreases width - i,
    {
        s.push('0');
        i = i + 1;
        assert(s@ =~= Seq::new((i - len) as nat, |k: int| '0'));
    }
    s.append(digits.as_str());
    assert(s@ =~= zero_padded(digits@, width as nat));
    s
}

/// Whether `c` has the Unicode property `White_Space`.
pub fn whitespace(c: char) -> (r: bool)
    ensures
        r == is_whitespace(c),
{
    let n: u32 = c as u32;
    (0x9 <= n && n <= 0xd) || n == 0x20 || n == 0x85 || n == 0xa0 || n == 0x1680 || (0x2000 <= n && n <= 0x200a) || n
        == 0x2028 || n == 0x2029 || n == 0x202f || n == 0x205f || n == 0x3000
}

/// `s` without leading and trailing whitespace.
pub fn trim(s: &str) -> (r: String)
    ensures
        r@ == trimmed(s@),
{
    let sc = to_chars(s);
    let mut a: usize = 0;
    let mut b: usize = sc.len();
    assert(sc@.subrange(0, b as int) =~= s@);
    while a < b && whitespace(sc[a])
        invariant
            sc@ == s@,
            a <= b == sc@.len(),
            trimmed(sc@.subrange(a as int, b as int)) == trimmed(s@),
        decreases b - a,
    {
        assert(sc@.subrange(a as int, b as int).drop_first() =~= sc@.subrange(a + 1, b as int));
        a = a + 1;
    }
    while a < b && whitespace(sc[b - 1])
        invariant
            sc@ == s@,
            a <= b <= sc@.len(),
            a < b ==> !is_whitespace(sc@[a as int]),
            trimmed(sc@.subrange(a as int, b as int)) == trimmed(s@),
        decreases b - a,
    {
        assert(sc@.subrange(a as int, b as int).drop_last() =~= sc@.subrange(a as int, b - 1));
        b = b - 1;
    }
    from_chars(&sc, a, b)
}

fn lower_ascii(c: char) -> (r: char)
    ensures
        r == ascii_lower(c),
{
    if 'A' <= c && c <= 'Z' {
        let n: u8 = c as u8 + 32;
        n as char
    } else {
        c
    }
}

/// Whether two texts are equal but for the case of ASCII letters.
pub fn eq_ignore_ascii_case(a: &str, b: &str) -> (r: bool)
    ensures
        r == eq_ignoring_ascii_case(a@, b@),
{
    let ac = to_chars(a);
    let bc = to_chars(b);
    if ac.len() != bc.len() {
        return false;
    }
    let mut i: usize = 0;
    while i < ac.len()
        invariant
            ac@ == a@,
            bc@ == b@,
            ac@.len() == bc@.len(),
            i <= ac@.len(),
            forall|j: int| 0 <= j < i ==> ascii_lower(a@[j]) == ascii_lower(b@[j]),
        decreases ac@.len() - i,
    {
        if lower_ascii(ac[i]) != lower_ascii(bc[i]) {
            return false;
        }
        i = i + 1;
    }
    true
}

/// Whether `a` comes before `b`, or equals it, in the order by code point.
pub fn str_le(a: &str, b: &str) -> (r: bool)
    ensures
        r == lex_le(a@, b@),
{
    let ac = to_chars(a);
    let bc = to_chars(b);
    let mut i: usize = 0;
    assert(ac@.skip(0) =~= a@);
    assert(bc@.skip(0) =~= b@);
    while i < ac.len()
        invariant
            ac@ == a@,
            bc@ == b@,
            i <= ac@.len(),
            i <= bc@.len(),
            lex_le(a@, b@) == lex_le(ac@.skip(i as int), bc@.skip(i as int)),
        decreases ac@.len() - i,
    {
        if i >= bc.len() {
            return false;
        }
        if ac[i] != bc[i] {
            return ac[i] < bc[i];
        }
        assert(ac@.skip(i as int).drop_first() =~= ac@.skip(i + 1));
        assert(bc@.skip(i as int).drop_first() =~= bc@.skip(i + 1));
        i = i + 1;
    }
    true
}

/// Copies of the strings of `v`.
pub fn clone_strings(v: &Vec<String>) -> (r: Vec<String>)
    ensures
        r@ == v@,
{
    let r = v.clone();
    assert(r@ =~= v@);
    r
}

/// A copy of an optional string.
pub fn clone_opt(o: &Option<String>) -> (r: Option<String>)
    ensures
        r == *o,
{
    match o {
        Some(s) => Some(s.clone()),
        None => None,
    }
}

/// Whether a string with the text of `s` is among `v`.
pub fn contains_string(v: &Vec<String>, s: &str) -> (r: bool)
    ensures
        r == views(v@).contains(s@),
{
    let mut i: usize = 0;
    while i < v.len()
        invariant
            i <= v@.len(),
            forall|j: int| 0 <= j < i ==> v@[j]@ != s@,
        decreases v@.len() - i,
    {
        if str_eq(v[i].as_str(), s) {
            assert(views(v@)[i as int] == s@);
            return true;
        }
        i = i + 1;
    }
    assert(forall|j: int| 0 <= j < v@.len() ==> views(v@)[j] == v@[j]@);
    false
}

/// `String::from_utf8`: the text that `bytes` encode, where they are UTF-8.
#[verifier::external_body]
pub(crate) fn utf8_text(bytes: Vec<u8>) -> (r: Option<String>)
    ensures
        match r {
            Some(s) => vstd::utf8::valid_utf8(bytes@) && s@ == vstd::utf8::decode_utf8(bytes@),
            None => !vstd::utf8::valid_utf8(bytes@),
        },
{
    String::from_utf8(bytes).ok()
}

/// A text is what is left of it without a trailing run, followed by that run; what is left does
/// not end with the run's character.
pub proof fn trimming_the_end_takes_only_the_run(s: Seq<char>, c: char)
    ensures
        ({
            let kept = trim_end(s, c);
            &&& kept.len() <= s.len()
            &&& s.take(kept.len() as int) == kept
            &&& forall|i: int| kept.len() <= i < s.len() ==> s[i] == c
            &&& kept.len() > 0 ==> kept.last() != c
        }),
    decreases s.len(),
{
    if s.len() > 0 && s.last() == c {
        trimming_the_end_takes_only_the_run(s.drop_last(), c);
        let kept = trim_end(s, c);
        assert(s.take(kept.len() as int) =~= s.drop_last().take(kept.len() as int));
        assert forall|i: int| kept.len() <= i < s.len() implies s[i] == c by {
            if i < s.len() - 1 {
                assert(s.drop_last()[i] == c);
            }
        }
    } else {
        assert(s.take(s.len() as int) =~= s);
    }
}

/// A text is its leading run followed by what is left without it; what is left does not start
/// with the run's character.
pub proof fn trimming_the_start_takes_only_the_run(s: Seq<char>, c: char)
    ensures
        ({
            let kept = trim_start(s, c);
            &&& kept.len() <= s.len()
            &&& s.skip(s.len() - kept.len()) == kept
            &&& forall|i: int| 0 <= i < s.len() - kept.len() ==> s[i] == c
            &&& kept.len() > 0 ==> kept.first() != c
        }),
    decreases s.len(),
{
    if s.len() > 0 && s.first() == c {
        let rest = s.drop_first();
        trimming_the_start_takes_only_the_run(rest, c);
        let kept = trim_start(s, c);
        assert(s.skip(s.len() - kept.len()) =~= rest.skip(rest.len() - kept.len()));
        assert forall|i: int| 0 <= i < s.len() - kept.len() implies s[i] == c by {
            if i > 0 {
                assert(rest[i - 1] == c);
            }
        }
    } else {
        assert(s.skip(0) =~= s);
    }
}

/// Trimming takes whitespace off both ends and nothing else: what it keeps is a part of the text
/// with only whitespace before and behind it, and neither starts nor ends with whitespace.
pub proof fn trimming_takes_only_whitespace(s: Seq<char>) -> (start: int)
    ensures
        0 <= start <= start + trimmed(s).len() <= s.len(),
        s.subrange(start, start + trimmed(s).len()) == trimmed(s),
        forall|i: int| 0 <= i < start ==> is_whitespace(s[i]),
        forall|i: int| start + trimmed(s).len() <= i < s.len() ==> is_whitespace(s[i]),
        trimmed(s).len() > 0 ==> !is_whitespace(trimmed(s).first()) && !is_whitespace(trimmed(s).last()),
    decreases s.len(),
{
    let kept = trimmed(s);
    if s.len() > 0 && is_whitespace(s.first()) {
        let rest = s.drop_first();
        let at = trimming_takes_only_whitespace(rest);
        assert(s.subrange(at + 1, at + 1 + kept.len()) =~= rest.subrange(at, at + kept.len()));
        assert forall|i: int| 0 <= i < at + 1 implies is_whitespace(s[i]) by {
            if i > 0 {
                assert(is_whitespace(rest[i - 1]));
            }
        }
        assert forall|i: int| at + 1 + kept.len() <= i < s.len() implies is_whitespace(s[i]) by {
            assert(is_whitespace(rest[i - 1]));
        }
        at + 1
    } else if s.len() > 0 && is_whitespace(s.last()) {
        let rest = s.drop_last();
        let at = trimming_takes_only_whitespace(rest);
        assert(s.subrange(at, at + kept.len()) =~= rest.subrange(at, at + kept.len()));
        assert forall|i: int| 0 <= i < at implies is_whitespace(s[i]) by {
            assert(is_whitespace(rest[i]));
        }
        assert forall|i: int| at + kept.len() <= i < s.len() implies is_whitespace(s[i]) by {
            if i < s.len() - 1 {
                assert(is_whitespace(rest[i]));
            }
        }
        at
    } else {
        assert(s.subrange(0, s.len() as int) =~= s);
        0
    }
}

/// The number that decimal digits stand for.
pub open spec fn worth(digits: Seq<char>) -> int
    decreases digits.len(),
{
    if digits.len() == 0 {
        0
    } else {
        10 * worth(digits.drop_last()) + (digits.last() as int - '0' as int)
    }
}

/// The decimal digits of a number stand for that number, and a number of more than one digit does
/// not start with a zero.
pub proof fn decimals_stand_for_their_number(n: nat)
    ensures
        worth(decimal(n)) == n,
        decimal(n).len() > 1 ==> decimal(n).first() != '0',
        n > 0 ==> decimal(n).first() != '0',
    decreases n,
{
    if n < 10 {
        assert(decimal(n).drop_last() =~= Seq::<char>::empty());
        assert(worth(Seq::<char>::empty()) == 0);
        assert(decimal(n).last() as int == 48 + n);
    } else {
        let high = decimal(n / 10);
        decimals_stand_for_their_number(n / 10);
        decimal_nonempty(n / 10);
        assert(decimal(n).drop_last() =~= high);
        assert(decimal(n).last() as int == 48 + n % 10);
        assert(decimal(n).first() == high.first());
    }
}

/// A negative number is the digits of its size behind a minus sign; any other is its digits.
pub proof fn signs_stand_before_the_digits(n: int)
    ensures
        n < 0 ==> signed_decimal(n).first() == '-' && worth(signed_decimal(n).skip(1)) == -n,
        n >= 0 ==> worth(signed_decimal(n)) == n,
{
    if n < 0 {
        decimals_stand_for_their_number((-n) as nat);
        assert(signed_decimal(n).skip(1) =~= decimal((-n) as nat));
    } else {
        decimals_stand_for_their_number(n as nat);
    }
}

/// Filling up only puts zeros in front, and no more than the width asks for.
pub proof fn padding_is_zeros_in_front(s: Seq<char>, width: nat)
    ensures
        zero_padded(s, width).len() == if s.len() < width {
            width
        } else {
            s.len()
        },
        zero_padded(s, width).skip(zero_padded(s, width).len() - s.len()) == s,
        forall|i: int| 0 <= i < zero_padded(s, width).len() - s.len() ==> zero_padded(s, width)[i] == '0',
{
    assert(zero_padded(s, width).skip(zero_padded(s, width).len() - s.len()) =~= s);
}

/// A single piece is joined to itself, and joining two lists of pieces puts one separator between
/// them.
pub proof fn separators_stand_between_pieces(a: Seq<Seq<char>>, b: Seq<Seq<char>>, p: Seq<char>, sep: Seq<char>)
    ensures
        join(seq![p], sep) == p,
        a.len() > 0 && b.len() > 0 ==> join(a + b, sep) == join(a, sep) + sep + join(b, sep),
    decreases b.len(),
{
    if a.len() > 0 && b.len() > 0 {
        assert((a + b).drop_last() =~= a + b.drop_last());
        assert((a + b).last() == b.last());
        if b.len() == 1 {
            assert(a + b.drop_last() =~= a);
        } else {
            separators_stand_between_pieces(a, b.drop_last(), p, sep);
            assert(join(a, sep) + sep + join(b.drop_last(), sep) + sep + b.last() =~= join(a, sep) + sep + (join(
                b.drop_last(),
                sep,
            ) + sep + b.last()));
        }
    }
}

/// Texts are in order by the first character in which they differ; a text comes before what
/// continues it.
pub proof fn the_first_difference_decides(common: Seq<char>, a: Seq<char>, b: Seq<char>)
    ensures
        lex_le(common, common + b),
        b.len() > 0 ==> !lex_le(common + b, common),
        a.len() > 0 && b.len() > 0 && a[0] != b[0] ==> (lex_le(common + a, common + b) <==> a[0] < b[0]),
    decreases common.len(),
{
    if common.len() > 0 {
        the_first_difference_decides(common.drop_first(), a, b);
        assert((common + b).drop_first() =~= common.drop_first() + b);
        assert((common + a).drop_first() =~= common.drop_first() + a);
    } else {
        assert(common + b =~= b);
        assert(common + a =~= a);
    }
}

/// A text starts with what it was put behind, and ends with what was put behind it; taking that
/// off again leaves the rest.
pub proof fn affixes_come_off_again(p: Seq<char>, s: Seq<char>)
    ensures
        has_prefix(p + s, p),
        has_suffix(p + s, s),
        without_prefix(p + s, p) == Some(s),
        without_suffix(p + s, s) == Some(p),
        contains(p + s, p),
        contains(p + s, s),
{
    assert((p + s).subrange(0, p.len() as int) =~= p);
    assert((p + s).subrange(p.len() as int, (p + s).len() as int) =~= s);
    assert(occurs_at(p + s, p, 0));
    assert(occurs_at(p + s, s, p.len() as int));
}

/// Only ASCII letters have another case, and lower case is told from upper case by nothing else.
pub proof fn only_ascii_letters_change_case(c: char)
    ensures
        'A' <= c <= 'Z' ==> ascii_lower(c) as int == c as int + 32,
        !('A' <= c <= 'Z') ==> ascii_lower(c) == c,
{
}

} // verus!
