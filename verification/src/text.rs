//! Strings as sequences of characters, and the byte offsets that UTF-8 gives them.

use vstd::prelude::*;
use vstd::string::*;
use vstd::utf8::*;

verus! {

/// The number of bytes that the UTF-8 encoding of `s` takes.
pub open spec fn utf8_len(s: Seq<char>) -> nat {
    encode_utf8(s).len()
}

/// The byte offset of the character with index `k` in `s`.
pub open spec fn byte_at(s: Seq<char>, k: int) -> nat {
    utf8_len(s.take(k))
}

/// The number of bytes that one character takes in UTF-8.
pub open spec fn char_utf8_len(c: char) -> nat {
    if c as u32 <= 0x7F {
        1
    } else if c as u32 <= 0x7FF {
        2
    } else if c as u32 <= 0xFFFF {
        3
    } else {
        4
    }
}

/// The texts of a list of strings.
pub open spec fn texts(v: Seq<String>) -> Seq<Seq<char>> {
    v.map_values(|s: String| s@)
}

/// The concatenation of a list of texts.
pub open spec fn concat(parts: Seq<Seq<char>>) -> Seq<char>
    decreases parts.len(),
{
    if parts.len() == 0 {
        seq![]
    } else {
        concat(parts.drop_last()) + parts.last()
    }
}

pub proof fn lemma_encode_concat(a: Seq<char>, b: Seq<char>)
    ensures
        encode_utf8(a + b) == encode_utf8(a) + encode_utf8(b),
    decreases a.len(),
{
    if a.len() == 0 {
        assert(a + b =~= b);
        assert(encode_utf8(a) + encode_utf8(b) =~= encode_utf8(b));
    } else {
        assert((a + b).drop_first() =~= a.drop_first() + b);
        lemma_encode_concat(a.drop_first(), b);
        assert(encode_utf8(a + b) =~= encode_utf8(a) + encode_utf8(b));
    }
}

pub proof fn lemma_utf8_len_concat(a: Seq<char>, b: Seq<char>)
    ensures
        utf8_len(a + b) == utf8_len(a) + utf8_len(b),
{
    lemma_encode_concat(a, b);
}

pub proof fn lemma_utf8_len_one(c: char)
    ensures
        utf8_len(seq![c]) == char_utf8_len(c),
        1 <= char_utf8_len(c) <= 4,
{
    reveal_with_fuel(encode_utf8, 2);
    assert(seq![c].drop_first() =~= Seq::<char>::empty());
    assert(encode_utf8(seq![c]) =~= encode_scalar(c as u32));
}

pub proof fn lemma_utf8_len_push(s: Seq<char>, c: char)
    ensures
        utf8_len(s.push(c)) == utf8_len(s) + char_utf8_len(c),
{
    assert(s.push(c) =~= s + seq![c]);
    lemma_utf8_len_concat(s, seq![c]);
    lemma_utf8_len_one(c);
}

/// A text is at least as long in bytes as in characters, and at most four times so.
pub proof fn lemma_utf8_len_bounds(s: Seq<char>)
    ensures
        s.len() <= utf8_len(s) <= 4 * s.len(),
    decreases s.len(),
{
    if s.len() > 0 {
        lemma_utf8_len_bounds(s.drop_last());
        assert(s =~= s.drop_last().push(s.last()));
        lemma_utf8_len_push(s.drop_last(), s.last());
        lemma_utf8_len_one(s.last());
    }
}

pub proof fn lemma_byte_at_step(s: Seq<char>, k: int)
    requires
        0 <= k < s.len(),
    ensures
        byte_at(s, k + 1) == byte_at(s, k) + char_utf8_len(s[k]),
{
    assert(s.take(k + 1) =~= s.take(k).push(s[k]));
    lemma_utf8_len_push(s.take(k), s[k]);
}

pub proof fn lemma_byte_at_ends(s: Seq<char>)
    ensures
        byte_at(s, 0) == 0,
        byte_at(s, s.len() as int) == utf8_len(s),
{
    assert(s.take(0) =~= Seq::<char>::empty());
    assert(s.take(s.len() as int) =~= s);
}

/// Byte offsets grow strictly with the character index.
pub proof fn lemma_byte_at_monotonic(s: Seq<char>, i: int, j: int)
    requires
        0 <= i <= j <= s.len(),
    ensures
        byte_at(s, i) <= byte_at(s, j) <= utf8_len(s),
        byte_at(s, j) - byte_at(s, i) == utf8_len(s.subrange(i, j)),
        i < j ==> byte_at(s, i) < byte_at(s, j),
{
    assert(s.take(j) =~= s.take(i) + s.subrange(i, j));
    lemma_utf8_len_concat(s.take(i), s.subrange(i, j));
    lemma_utf8_len_bounds(s.subrange(i, j));
    assert(s =~= s.take(j) + s.skip(j));
    lemma_utf8_len_concat(s.take(j), s.skip(j));
}

/// UTF-8 is injective.
pub proof fn lemma_encode_injective(a: Seq<char>, b: Seq<char>)
    requires
        encode_utf8(a) == encode_utf8(b),
    ensures
        a == b,
{
    encode_utf8_decode_utf8(a);
    encode_utf8_decode_utf8(b);
}

/// The end of a prefix of the characters is a character boundary of the bytes.
pub proof fn lemma_prefix_is_boundary(a: Seq<char>, b: Seq<char>)
    ensures
        valid_utf8(encode_utf8(a + b)),
        is_char_boundary(encode_utf8(a + b), utf8_len(a) as int),
    decreases a.len(),
{
    let bytes = encode_utf8(a + b);
    encode_utf8_valid_utf8(a + b);
    if a.len() > 0 {
        encode_utf8_first_scalar(a + b);
        assert((a + b).drop_first() =~= a.drop_first() + b);
        assert(pop_first_scalar(bytes) =~= encode_utf8(a.drop_first() + b));
        lemma_prefix_is_boundary(a.drop_first(), b);
        lemma_encode_concat(a, b);
        lemma_encode_concat(seq![a[0]], a.drop_first());
        assert(a =~= seq![a[0]] + a.drop_first());
        lemma_encode_concat(seq![a[0]], a.drop_first() + b);
        assert(a + b =~= seq![a[0]] + (a.drop_first() + b));
        reveal_with_fuel(is_char_boundary, 2);
        assert(length_of_first_scalar(bytes) == encode_scalar(a[0] as u32).len());
        assert(seq![a[0]].drop_first() =~= Seq::<char>::empty());
        reveal_with_fuel(encode_utf8, 2);
        assert(encode_utf8(seq![a[0]]) =~= encode_scalar(a[0] as u32));
        assert(bytes.len() >= utf8_len(a));
    }
}

/// `String::push` appends one character.
pub assume_specification[ std::string::String::push ](s: &mut std::string::String, c: char)
    ensures
        final(s)@ == old(s)@.push(c),
;

/// The length of a string in bytes.
pub fn byte_len(s: &str) -> (n: usize)
    ensures
        n == utf8_len(s@),
{
    s.as_bytes().len()
}

/// The characters of a string.
pub fn chars_of(s: &str) -> (v: Vec<char>)
    ensures
        v@ == s@,
{
    let mut v: Vec<char> = Vec::new();
    for c in it: s.chars()
        invariant
            it.seq() == s@,
            v@ == s@.take(it.index()),
    {
        v.push(c);
        assert(s@.take(it.index() + 1) =~= s@.take(it.index()).push(c));
    }
    assert(s@.take(s@.len() as int) =~= s@);
    v
}

/// The string made of `v[start..end]`.
pub fn string_of(v: &Vec<char>, start: usize, end: usize) -> (s: String)
    requires
        start <= end <= v@.len(),
    ensures
        s@ == v@.subrange(start as int, end as int),
{
    let mut s = String::new();
    let mut i: usize = start;
    while i < end
        invariant
            start <= i <= end <= v@.len(),
            s@ == v@.subrange(start as int, i as int),
        decreases end - i,
    {
        s.push(v[i]);
        assert(v@.subrange(start as int, i + 1) =~= v@.subrange(start as int, i as int).push(v@[i as int]));
        i += 1;
    }
    s
}

/// The number of bytes of one character.
pub fn char_len(c: char) -> (n: usize)
    ensures
        n == char_utf8_len(c),
        1 <= n <= 4,
{
    let code: u32 = c as u32;
    if code <= 0x7F {
        1
    } else if code <= 0x7FF {
        2
    } else if code <= 0xFFFF {
        3
    } else {
        4
    }
}

/// `s` cut in two at the byte offset `mid`, which is that of the character with index `k`.
pub(crate) fn split_at_char(s: &str, mid: usize, Ghost(k): Ghost<int>) -> (r: (String, String))
    requires
        0 <= k <= s@.len(),
        mid == byte_at(s@, k),
    ensures
        r.0@ == s@.take(k),
        r.1@ == s@.skip(k),
{
    proof {
        assert(s@ =~= s@.take(k) + s@.skip(k));
        lemma_prefix_is_boundary(s@.take(k), s@.skip(k));
        lemma_encode_concat(s@.take(k), s@.skip(k));
    }
    let (a, b) = s.split_at(mid);
    proof {
        assert(encode_utf8(a@) =~= encode_utf8(s@.take(k)));
        assert(encode_utf8(b@) =~= encode_utf8(s@.skip(k)));
        lemma_encode_injective(a@, s@.take(k));
        lemma_encode_injective(b@, s@.skip(k));
    }
    (a.to_owned(), b.to_owned())
}

/// Whether the byte offset `b` is that of a character of `s`, or the end of `s`.
pub open spec fn on_boundary(s: Seq<char>, b: int) -> bool {
    exists|k: int| 0 <= k <= s.len() && #[trigger] byte_at(s, k) == b
}

/// The index of the character at byte offset `b`.
pub open spec fn char_index(s: Seq<char>, b: int) -> int {
    choose|k: int| 0 <= k <= s.len() && #[trigger] byte_at(s, k) == b
}

/// The characters between two byte offsets.
pub open spec fn byte_slice(s: Seq<char>, from: int, to: int) -> Seq<char> {
    s.subrange(char_index(s, from), char_index(s, to))
}

pub proof fn lemma_char_index(s: Seq<char>, k: int)
    requires
        0 <= k <= s.len(),
    ensures
        on_boundary(s, byte_at(s, k) as int),
        char_index(s, byte_at(s, k) as int) == k,
{
    let j = char_index(s, byte_at(s, k) as int);
    if j < k {
        lemma_byte_at_monotonic(s, j, k);
    } else if k < j {
        lemma_byte_at_monotonic(s, k, j);
    }
}

pub proof fn lemma_boundary_order(s: Seq<char>, a: int, b: int)
    requires
        on_boundary(s, a),
        on_boundary(s, b),
        a <= b,
    ensures
        0 <= char_index(s, a) <= char_index(s, b) <= s.len(),
        0 <= a <= b <= utf8_len(s),
        byte_at(s, char_index(s, a)) == a,
        byte_at(s, char_index(s, b)) == b,
        utf8_len(byte_slice(s, a, b)) == b - a,
{
    let i = char_index(s, a);
    let j = char_index(s, b);
    if j < i {
        lemma_byte_at_monotonic(s, j, i);
    }
    lemma_byte_at_monotonic(s, i, j);
}

/// The ends of a text are boundaries.
pub proof fn lemma_boundary_ends(s: Seq<char>)
    ensures
        on_boundary(s, 0),
        on_boundary(s, utf8_len(s) as int),
        char_index(s, 0) == 0,
        char_index(s, utf8_len(s) as int) == s.len(),
{
    lemma_byte_at_ends(s);
    lemma_char_index(s, 0);
    lemma_char_index(s, s.len() as int);
}

proof fn lemma_boundary_of_bytes(s: Seq<char>, b: int)
    ensures
        valid_utf8(encode_utf8(s)),
        is_char_boundary(encode_utf8(s), b) == on_boundary(s, b),
    decreases s.len(),
{
    encode_utf8_valid_utf8(s);
    if is_char_boundary(encode_utf8(s), b) {
        lemma_bytes_boundary_is_char(s, b);
    }
    if on_boundary(s, b) {
        let k = char_index(s, b);
        assert(s =~= s.take(k) + s.skip(k));
        lemma_prefix_is_boundary(s.take(k), s.skip(k));
    }
}

proof fn lemma_bytes_boundary_is_char(s: Seq<char>, b: int)
    requires
        valid_utf8(encode_utf8(s)),
        is_char_boundary(encode_utf8(s), b),
    ensures
        on_boundary(s, b),
    decreases s.len(),
{
    let bytes = encode_utf8(s);
    lemma_boundary_ends(s);
    if b != 0 {
        if s.len() == 0 {
            assert(bytes.len() == 0);
        } else {
            encode_utf8_first_scalar(s);
            assert(pop_first_scalar(bytes) =~= encode_utf8(s.drop_first()));
            encode_utf8_valid_utf8(s.drop_first());
            let n = length_of_first_scalar(bytes);
            lemma_bytes_boundary_is_char(s.drop_first(), b - n);
            let k = char_index(s.drop_first(), b - n);
            assert(s.take(k + 1) =~= seq![s[0]] + s.drop_first().take(k));
            lemma_utf8_len_concat(seq![s[0]], s.drop_first().take(k));
            assert(seq![s[0]].drop_first() =~= Seq::<char>::empty());
            reveal_with_fuel(encode_utf8, 2);
            assert(encode_utf8(seq![s[0]]) =~= encode_scalar(s[0] as u32));
            assert(byte_at(s, k + 1) == b);
        }
    }
}

/// Whether a byte offset is that of a character, or the end.
pub fn is_boundary(s: &str, b: usize) -> (r: bool)
    ensures
        r == on_boundary(s@, b as int),
{
    proof {
        lemma_boundary_of_bytes(s@, b as int);
    }
    s.is_char_boundary(b)
}

/// The characters between two byte offsets.
pub fn slice_bytes(s: &str, from: usize, to: usize) -> (r: String)
    requires
        on_boundary(s@, from as int),
        on_boundary(s@, to as int),
        from <= to,
    ensures
        r@ == byte_slice(s@, from as int, to as int),
{
    proof {
        lemma_boundary_order(s@, from as int, to as int);
    }
    let ghost i = char_index(s@, from as int);
    let ghost j = char_index(s@, to as int);
    let (head, _) = split_at_char(s, to, Ghost(j));
    proof {
        assert(head@.take(i) =~= s@.take(i));
    }
    let (_, r) = split_at_char(head.as_str(), from, Ghost(i));
    proof {
        assert(r@ =~= s@.subrange(i, j));
    }
    r
}

/// The index of the first `sep` in `s`, or the length of `s`.
pub open spec fn first_index(s: Seq<char>, sep: char) -> int
    decreases s.len(),
{
    if s.len() == 0 || s[0] == sep {
        0
    } else {
        1 + first_index(s.drop_first(), sep)
    }
}

/// The pieces between the occurrences of `sep`.
pub open spec fn split_on(s: Seq<char>, sep: char) -> Seq<Seq<char>>
    decreases s.len(),
{
    let i = first_index(s, sep);
    if i < 0 || i >= s.len() {
        seq![s]
    } else {
        seq![s.take(i)] + split_on(s.skip(i + 1), sep)
    }
}

/// The pieces put together again, with `sep` between each two.
pub open spec fn join_with(pieces: Seq<Seq<char>>, sep: Seq<char>) -> Seq<char>
    decreases pieces.len(),
{
    if pieces.len() == 0 {
        seq![]
    } else if pieces.len() == 1 {
        pieces[0]
    } else {
        join_with(pieces.drop_last(), sep) + sep + pieces.last()
    }
}

pub proof fn lemma_first_index(s: Seq<char>, sep: char)
    ensures
        0 <= first_index(s, sep) <= s.len(),
        first_index(s, sep) < s.len() ==> s[first_index(s, sep)] == sep,
        forall|k: int| 0 <= k < first_index(s, sep) ==> s[k] != sep,
    decreases s.len(),
{
    if s.len() > 0 && s[0] != sep {
        lemma_first_index(s.drop_first(), sep);
        assert forall|k: int| 0 <= k < first_index(s, sep) implies s[k] != sep by {
            if k > 0 {
                assert(s[k] == s.drop_first()[k - 1]);
            }
        }
    }
}

/// The only index with these properties is the first one.
pub proof fn lemma_first_index_is(s: Seq<char>, sep: char, i: int)
    requires
        0 <= i <= s.len(),
        i < s.len() ==> s[i] == sep,
        forall|k: int| 0 <= k < i ==> s[k] != sep,
    ensures
        first_index(s, sep) == i,
{
    lemma_first_index(s, sep);
    let j = first_index(s, sep);
    if j < i {
        assert(s[j] != sep);
    } else if i < j {
        assert(s[i] != sep);
    }
}

/// The pieces of `s` between the occurrences of `sep`, as strings.
pub fn split_str(s: &str, sep: char) -> (v: Vec<String>)
    ensures
        texts(v@) == split_on(s@, sep),
{
    let cs = chars_of(s);
    let mut v: Vec<String> = Vec::new();
    let mut start: usize = 0;
    let mut i: usize = 0;
    proof {
        assert(s@.skip(0) =~= s@);
        assert(texts(v@) + split_on(s@, sep) =~= split_on(s@, sep));
    }
    while i < cs.len()
        invariant
            start <= i <= cs@.len(),
            cs@ == s@,
            forall|k: int| start <= k < i ==> s@[k] != sep,
            texts(v@) + split_on(s@.skip(start as int), sep) == split_on(s@, sep),
        decreases cs@.len() - i,
    {
        if cs[i] == sep {
            let piece = string_of(&cs, start, i);
            proof {
                let rest = s@.skip(start as int);
                lemma_first_index_is(rest, sep, i - start);
                assert(rest.take(i - start) =~= piece@);
                assert(rest.skip(i - start + 1) =~= s@.skip(i + 1));
                assert(texts(v@.push(piece)) =~= texts(v@).push(piece@));
                assert(texts(v@.push(piece)) + split_on(s@.skip(i + 1), sep)
                    =~= texts(v@) + split_on(rest, sep));
            }
            v.push(piece);
            start = i + 1;
        }
        i += 1;
    }
    let piece = string_of(&cs, start, i);
    proof {
        let rest = s@.skip(start as int);
        lemma_first_index_is(rest, sep, i - start);
        assert(rest =~= piece@);
        assert(texts(v@.push(piece)) =~= texts(v@) + split_on(rest, sep));
    }
    v.push(piece);
    v
}

/// Whether two strings hold the same characters.
pub fn str_eq(a: &str, b: &str) -> (r: bool)
    ensures
        r == (a@ == b@),
{
    let x = a.as_bytes();
    let y = b.as_bytes();
    if x.len() != y.len() {
        return false;
    }
    let mut i: usize = 0;
    while i < x.len()
        invariant
            i <= x@.len(),
            x@.len() == y@.len(),
            x@ == encode_utf8(a@),
            y@ == encode_utf8(b@),
            forall|k: int| 0 <= k < i ==> x@[k] == y@[k],
        decreases x@.len() - i,
    {
        if x[i] != y[i] {
            return false;
        }
        i += 1;
    }
    assert(x@ =~= y@);
    proof {
        lemma_encode_injective(a@, b@);
    }
    true
}

// ---- Building text ----

/// `n` times the same character.
pub open spec fn repeated(c: char, n: nat) -> Seq<char> {
    Seq::new(n, |i: int| c)
}

pub fn repeat_char(c: char, n: usize) -> (s: String)
    ensures
        s@ == repeated(c, n as nat),
{
    let mut s = String::new();
    let mut i: usize = 0;
    assert(s@ =~= repeated(c, 0));
    while i < n
        invariant
            i <= n,
            s@ == repeated(c, i as nat),
        decreases n - i,
    {
        s.push(c);
        assert(repeated(c, (i + 1) as nat) =~= repeated(c, i as nat).push(c));
        i += 1;
    }
    s
}

/// The decimal digit with the value `d`.
pub open spec fn digit(d: int) -> char {
    (48 + d) as u8 as char
}

/// A number in decimal.
pub open spec fn decimal(n: nat) -> Seq<char>
    decreases n,
{
    if n < 10 {
        seq![digit(n as int)]
    } else {
        decimal(n / 10).push(digit((n % 10) as int))
    }
}

pub fn decimal_string(n: u64) -> (s: String)
    ensures
        s@ == decimal(n as nat),
    decreases n,
{
    if n < 10 {
        let mut s = String::new();
        s.push((48 + n as u8) as char);
        assert(s@ =~= decimal(n as nat));
        s
    } else {
        let mut s = decimal_string(n / 10);
        s.push((48 + (n % 10) as u8) as char);
        s
    }
}

/// A text cut off behind its first `limit` characters, with an ellipsis where something was cut.
pub open spec fn truncated(s: Seq<char>, limit: int) -> Seq<char> {
    if s.len() <= limit {
        s
    } else {
        s.take(limit) + "..."@
    }
}

pub fn truncate_text(s: &str, limit: usize) -> (r: String)
    ensures
        r@ == truncated(s@, limit as int),
{
    let cs = chars_of(s);
    if cs.len() <= limit {
        return s.to_owned();
    }
    let mut r = string_of(&cs, 0, limit);
    assert(r@ =~= s@.take(limit as int));
    r.append("...");
    r
}

/// The strings of a list, one after the other with `sep` between each two.
pub fn join_strings(parts: &Vec<String>, sep: &str) -> (r: String)
    ensures
        r@ == join_with(texts(parts@), sep@),
{
    let mut r = String::new();
    let mut i: usize = 0;
    let ghost all = texts(parts@);
    assert(all.take(0) =~= Seq::<Seq<char>>::empty());
    assert(r@ =~= join_with(all.take(0), sep@));
    while i < parts.len()
        invariant
            i <= parts@.len(),
            all == texts(parts@),
            r@ == join_with(all.take(i as int), sep@),
        decreases parts@.len() - i,
    {
        proof {
            assert(all.take(i + 1).drop_last() =~= all.take(i as int));
            assert(all.take(i + 1).last() == parts@[i as int]@);
            assert(i == 0 ==> r@ =~= Seq::<char>::empty());
            assert(i == 0 ==> Seq::<char>::empty() + parts@[0]@ =~= parts@[0]@);
        }
        if i > 0 {
            r.append(sep);
        }
        r.append(parts[i].as_str());
        i += 1;
    }
    assert(all.take(i as int) =~= all);
    r
}

// ---- Looking into text ----

/// Whether `s` begins with `prefix`.
pub open spec fn starts_with(s: Seq<char>, prefix: Seq<char>) -> bool {
    prefix.len() <= s.len() && s.take(prefix.len() as int) == prefix
}

/// Whether `needle` occurs in `s`.
pub open spec fn contains_text(s: Seq<char>, needle: Seq<char>) -> bool {
    exists|k: int| 0 <= k <= s.len() && #[trigger] starts_with(s.skip(k), needle)
}

/// Whether `needle` stands at index `at` of `v`.
pub fn matches_at(v: &Vec<char>, at: usize, needle: &Vec<char>) -> (r: bool)
    requires
        at <= v@.len(),
    ensures
        r == starts_with(v@.skip(at as int), needle@),
{
    if v.len() - at < needle.len() {
        return false;
    }
    let mut i: usize = 0;
    while i < needle.len()
        invariant
            i <= needle@.len(),
            at + needle@.len() <= v@.len() <= usize::MAX,
            forall|k: int| 0 <= k < i ==> v@[at + k] == needle@[k],
        decreases needle@.len() - i,
    {
        if v[at + i] != needle[i] {
            proof {
                assert(v@.skip(at as int).take(needle@.len() as int)[i as int] == v@[at + i]);
            }
            return false;
        }
        i += 1;
    }
    assert(v@.skip(at as int).take(needle@.len() as int) =~= needle@);
    true
}

pub fn str_contains(s: &str, needle: &str) -> (r: bool)
    ensures
        r == contains_text(s@, needle@),
{
    let v = chars_of(s);
    let n = chars_of(needle);
    let mut i: usize = 0;
    while i <= v.len()
        invariant
            i <= v@.len() + 1,
            v@ == s@,
            n@ == needle@,
            forall|k: int| 0 <= k < i ==> !#[trigger] starts_with(s@.skip(k), needle@),
        decreases v@.len() + 1 - i,
    {
        if matches_at(&v, i, &n) {
            return true;
        }
        if i == v.len() {
            return false;
        }
        i += 1;
    }
    false
}

pub fn str_starts_with(s: &str, prefix: &str) -> (r: bool)
    ensures
        r == starts_with(s@, prefix@),
{
    let v = chars_of(s);
    let n = chars_of(prefix);
    assert(s@.skip(0) =~= s@);
    matches_at(&v, 0, &n)
}

/// A list of strings holds one with the given text.
pub open spec fn has_text(v: Seq<Seq<char>>, s: Seq<char>) -> bool {
    exists|i: int| 0 <= i < v.len() && #[trigger] v[i] == s
}

pub fn list_contains(v: &[String], s: &str) -> (r: bool)
    ensures
        r == has_text(texts(v@), s@),
{
    let mut i: usize = 0;
    while i < v.len()
        invariant
            i <= v@.len(),
            forall|k: int| 0 <= k < i ==> #[trigger] texts(v@)[k] != s@,
        decreases v@.len() - i,
    {
        assert(texts(v@)[i as int] == v@[i as int]@);
        if str_eq(v[i].as_str(), s) {
            return true;
        }
        i += 1;
    }
    false
}

/// The text of an optional string.
pub open spec fn opt_text(s: Option<String>) -> Option<Seq<char>> {
    match s {
        Some(s) => Some(s@),
        None => None,
    }
}

/// The first place at or behind `from` where `c` stands, or the end.
pub fn find_char(v: &Vec<char>, from: usize, c: char) -> (r: usize)
    requires
        from <= v@.len(),
    ensures
        r == from + first_index(v@.skip(from as int), c),
        from <= r <= v@.len(),
{
    let mut i: usize = from;
    while i < v.len() && v[i] != c
        invariant
            from <= i <= v@.len(),
            forall|k: int| from <= k < i ==> v@[k] != c,
        decreases v@.len() - i,
    {
        i += 1;
    }
    proof {
        let s = v@.skip(from as int);
        assert forall|k: int| 0 <= k < i - from implies s[k] != c by {
            assert(s[k] == v@[from + k]);
        }
        lemma_first_index_is(s, c, i - from);
    }
    i
}

/// The characters `v[from..to]`.
pub fn sub_chars(v: &Vec<char>, from: usize, to: usize) -> (r: Vec<char>)
    requires
        from <= to <= v@.len(),
    ensures
        r@ == v@.subrange(from as int, to as int),
{
    let mut r: Vec<char> = Vec::new();
    let mut i: usize = from;
    while i < to
        invariant
            from <= i <= to <= v@.len(),
            r@ == v@.subrange(from as int, i as int),
        decreases to - i,
    {
        r.push(v[i]);
        assert(v@.subrange(from as int, i + 1) =~= v@.subrange(from as int, i as int).push(v@[i as int]));
        i += 1;
    }
    r
}

} // verus!
