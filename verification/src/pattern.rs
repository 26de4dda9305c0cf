use vstd::prelude::*;

verus! {

// A pattern is a whitespace-separated list of tokens. A token is either a
// wildcard ("?" or "??"), which matches any byte, or two hex digits naming
// one byte. Scanning finds every offset at which the buffer matches the
// token list. The specs below are stated over the UTF-8 bytes of the
// pattern string.

/// The UTF-8 bytes of a string, the form in which a pattern is interpreted.
pub open spec fn str_bytes(s: Seq<char>) -> Seq<u8> {
    vstd::utf8::encode_utf8(s)
}

/// An ASCII whitespace byte (the bytes on which a pattern splits).
pub open spec fn is_ws_byte(c: u8) -> bool {
    c == 9 || c == 10 || c == 11 || c == 12 || c == 13 || c == 32
}

/// A pattern of whitespace alone, which has no tokens at all.
pub open spec fn is_blank(s: Seq<u8>) -> bool {
    forall|i: int| 0 <= i < s.len() ==> is_ws_byte(s[i])
}

pub open spec fn is_hex_digit(c: u8) -> bool {
    (48 <= c && c <= 57) || (65 <= c && c <= 70) || (97 <= c && c <= 102)
}

pub open spec fn hex_digit_value(c: u8) -> u8 {
    if 48 <= c && c <= 57 {
        (c - 48) as u8
    } else if 65 <= c && c <= 70 {
        (c - 55) as u8
    } else {
        (c - 87) as u8
    }
}

/// Length of the maximal leading run of non-whitespace bytes.
pub open spec fn token_len(s: Seq<u8>) -> int
    decreases s.len(),
{
    if s.len() == 0 || is_ws_byte(s[0]) {
        0
    } else {
        1 + token_len(s.drop_first())
    }
}

pub proof fn lemma_token_len_bound(s: Seq<u8>)
    ensures
        0 <= token_len(s) <= s.len(),
    decreases s.len(),
{
    if s.len() == 0 || is_ws_byte(s[0]) {
    } else {
        lemma_token_len_bound(s.drop_first());
    }
}

/// The whitespace-separated tokens of a pattern string, in order.
pub open spec fn tokenize(s: Seq<u8>) -> Seq<Seq<u8>>
    decreases s.len(),
{
    if s.len() == 0 {
        Seq::<Seq<u8>>::empty()
    } else if is_ws_byte(s[0]) {
        tokenize(s.drop_first())
    } else {
        proof {
            lemma_token_len_bound(s);
            lemma_token_len_bound(s.drop_first());
        }
        seq![s.take(token_len(s))] + tokenize(s.skip(token_len(s)))
    }
}

/// A token that matches any byte.
pub open spec fn is_wildcard_token(t: Seq<u8>) -> bool {
    (t.len() == 1 && t[0] == 63) || (t.len() == 2 && t[0] == 63 && t[1] == 63)
}

/// A token naming one byte: two hex digits, the first of which the
/// underlying number parser also accepts as a plus sign.
pub open spec fn is_byte_token(t: Seq<u8>) -> bool {
    t.len() == 2 && is_hex_digit(t[1]) && (is_hex_digit(t[0]) || t[0] == 43)
}

pub open spec fn valid_token(t: Seq<u8>) -> bool {
    is_wildcard_token(t) || is_byte_token(t)
}

/// The byte value named by a byte token.
pub open spec fn token_byte(t: Seq<u8>) -> u8 {
    if t[0] == 43 {
        hex_digit_value(t[1])
    } else {
        (16 * hex_digit_value(t[0]) + hex_digit_value(t[1])) as u8
    }
}

/// Every token of the pattern is a wildcard or a byte token.
pub open spec fn tokens_valid(s: Seq<u8>) -> bool {
    forall|k: int| 0 <= k < tokenize(s).len() ==> valid_token(tokenize(s)[k])
}

/// A well-formed pattern: at least one token, and every token valid.
pub open spec fn pattern_wf(s: Seq<u8>) -> bool {
    tokenize(s).len() > 0 && tokens_valid(s)
}

/// The byte matcher a well-formed pattern denotes: `None` for a wildcard.
pub open spec fn parsed_pattern(s: Seq<u8>) -> Seq<Option<u8>> {
    tokenize(s).map_values(
        |t: Seq<u8>|
            if is_wildcard_token(t) {
                None
            } else {
                Some(token_byte(t))
            },
    )
}

/// The parsed pattern `p` matches buffer `d` at offset `i`.
pub open spec fn pattern_matches_at(p: Seq<Option<u8>>, d: Seq<u8>, i: int) -> bool {
    &&& 0 <= i
    &&& i + p.len() <= d.len()
    &&& forall|j: int| 0 <= j < p.len() ==> (p[j] is None || p[j]->Some_0 == d[i + j])
}

/// All offsets at or after `i` where `p` matches `d`, in increasing order.
pub open spec fn match_offsets_from(p: Seq<Option<u8>>, d: Seq<u8>, i: int) -> Seq<int>
    decreases d.len() - i + 1,
{
    if i < 0 || i + p.len() > d.len() {
        Seq::<int>::empty()
    } else if pattern_matches_at(p, d, i) {
        seq![i] + match_offsets_from(p, d, i + 1)
    } else {
        match_offsets_from(p, d, i + 1)
    }
}

/// All offsets where `p` matches `d`, in increasing order.
pub open spec fn match_offsets(p: Seq<Option<u8>>, d: Seq<u8>) -> Seq<int> {
    match_offsets_from(p, d, 0)
}

/// All offsets where the pattern string `s` matches the buffer `d`.
pub open spec fn pattern_offsets(s: Seq<char>, d: Seq<u8>) -> Seq<int> {
    match_offsets(parsed_pattern(str_bytes(s)), d)
}

/// A blank pattern has no tokens, and a pattern with no tokens is blank.
pub proof fn lemma_tokenize_blank(s: Seq<u8>)
    ensures
        tokenize(s).len() == 0 <==> is_blank(s),
    decreases s.len(),
{
    if s.len() == 0 {
    } else if is_ws_byte(s[0]) {
        lemma_tokenize_blank(s.drop_first());
        if is_blank(s) {
            assert forall|i: int| 0 <= i < s.drop_first().len() implies is_ws_byte(
                s.drop_first()[i],
            ) by {
                assert(s.drop_first()[i] == s[i + 1]);
            }
        }
        if is_blank(s.drop_first()) {
            assert forall|i: int| 0 <= i < s.len() implies is_ws_byte(s[i]) by {
                if i >= 1 {
                    assert(s.drop_first()[i - 1] == s[i]);
                }
            }
        }
    } else {
        assert(!is_blank(s));
    }
}

fn ws_byte(c: u8) -> (r: bool)
    ensures
        r == is_ws_byte(c),
{
    c == 9 || c == 10 || c == 11 || c == 12 || c == 13 || c == 32
}

fn hex_digit(c: u8) -> (r: bool)
    ensures
        r == is_hex_digit(c),
{
    (48 <= c && c <= 57) || (65 <= c && c <= 70) || (97 <= c && c <= 102)
}

/// End of the token that starts at `i`: the first whitespace byte at or
/// after `i`, or the end of the buffer.
fn token_end(b: &[u8], i: usize) -> (j: usize)
    requires
        i <= b@.len(),
    ensures
        i <= j <= b@.len(),
        j - i == token_len(b@.skip(i as int)),
{
    let mut j = i;
    while j < b.len() && !ws_byte(b[j])
        invariant
            i <= j <= b@.len(),
            token_len(b@.skip(i as int)) == j - i + token_len(b@.skip(j as int)),
        decreases b@.len() - j,
    {
        proof {
            assert(b@.skip(j as int)[0] == b@[j as int]);
            assert(b@.skip(j as int).drop_first() =~= b@.skip(j as int + 1));
        }
        j = j + 1;
    }
    proof {
        if j < b@.len() {
            assert(b@.skip(j as int)[0] == b@[j as int]);
        } else {
            assert(b@.skip(j as int).len() == 0);
        }
    }
    j
}

/// Whether the bytes `b[i..j]` form a valid token.
fn valid_token_range(b: &[u8], i: usize, j: usize) -> (r: bool)
    requires
        i <= j <= b@.len(),
    ensures
        r == valid_token(b@.subrange(i as int, j as int)),
{
    proof {
        assert(b@.subrange(i as int, j as int).len() == j - i);
        if i < j {
            assert(b@.subrange(i as int, j as int)[0] == b@[i as int]);
        }
        if i + 1 < j {
            assert(b@.subrange(i as int, j as int)[1] == b@[i as int + 1]);
        }
    }
    if j - i == 1 {
        b[i] == 63
    } else if j - i == 2 {
        (b[i] == 63 && b[i + 1] == 63) || (hex_digit(b[i + 1]) && (hex_digit(b[i]) || b[i] == 43))
    } else {
        false
    }
}

/// Whether every token of `b[i..]` is valid.
fn tokens_ok(b: &[u8], i: usize) -> (r: bool)
    requires
        i <= b@.len(),
    ensures
        r == tokens_valid(b@.skip(i as int)),
    decreases b@.len() - i,
{
    if i == b.len() {
        proof {
            assert(b@.skip(i as int) =~= Seq::<u8>::empty());
        }
        true
    } else if ws_byte(b[i]) {
        proof {
            assert(b@.skip(i as int)[0] == b@[i as int]);
            assert(b@.skip(i as int).drop_first() =~= b@.skip(i as int + 1));
        }
        let r2 = tokens_ok(b, i + 1);
        proof {
            let t0 = tokenize(b@.skip(i as int));
            let t1 = tokenize(b@.skip(i as int + 1));
            assert(t0 == t1);
            if r2 {
                assert forall|k: int| 0 <= k < t0.len() implies valid_token(t0[k]) by {
                    assert(t0[k] == t1[k]);
                }
            } else {
                let k = choose|k: int| 0 <= k < t1.len() && !valid_token(t1[k]);
                assert(!valid_token(t0[k]));
            }
        }
        r2
    } else {
        proof {
            assert(b@.skip(i as int)[0] == b@[i as int]);
        }
        let j = token_end(b, i);
        let ghost s = b@.skip(i as int);
        let ghost tl = token_len(s);
        proof {
            lemma_token_len_bound(s);
            lemma_token_len_bound(s.drop_first());
            assert(token_len(s) == 1 + token_len(s.drop_first()));
            assert(tl >= 1);
            assert(s.take(tl) =~= b@.subrange(i as int, j as int));
            assert(s.skip(tl) =~= b@.skip(j as int));
            assert(tokenize(s) == seq![s.take(tl)] + tokenize(s.skip(tl)));
        }
        let first_ok = valid_token_range(b, i, j);
        if !first_ok {
            proof {
                assert(tokenize(s)[0] == s.take(tl));
            }
            false
        } else {
            let rest_ok = tokens_ok(b, j);
            proof {
                let ts = tokenize(s);
                let rest = tokenize(b@.skip(j as int));
                assert(ts == seq![s.take(tl)] + rest);
                if rest_ok {
                    assert forall|k: int| 0 <= k < ts.len() implies valid_token(ts[k]) by {
                        if k == 0 {
                            assert(ts[0] == s.take(tl));
                        } else {
                            assert(ts[k] == rest[k - 1]);
                        }
                    }
                } else {
                    let k = choose|k: int|
                        0 <= k < rest.len() && !valid_token(rest[k]);
                    assert(ts[k + 1] == rest[k]);
                }
            }
            rest_ok
        }
    }
}

/// Whether a pattern string holds no token at all: nothing but
/// whitespace. Scanning such a pattern is not meaningful, and callers
/// must rule it out.
pub fn is_blank_pattern(pattern: &str) -> (r: bool)
    ensures
        r == is_blank(str_bytes(pattern@)),
{
    let b = pattern.as_bytes();
    let n = b.len();
    let mut i: usize = 0;
    let mut nonws = false;
    while i < n
        invariant
            n == b@.len(),
            0 <= i <= n,
            nonws == exists|k: int| 0 <= k < i && !is_ws_byte(b@[k]),
        decreases n - i,
    {
        if !ws_byte(b[i]) {
            nonws = true;
        }
        i = i + 1;
    }
    proof {
        assert(b@ == str_bytes(pattern@));
    }
    !nonws
}

/// Whether a pattern string is well formed: at least one token, every
/// token a wildcard or two hex digits.
pub fn check_pattern(pattern: &str) -> (r: bool)
    ensures
        r == pattern_wf(str_bytes(pattern@)),
{
    let b = pattern.as_bytes();
    let n = b.len();
    let mut i: usize = 0;
    let mut nonws = false;
    while i < n
        invariant
            n == b@.len(),
            0 <= i <= n,
            nonws == exists|k: int| 0 <= k < i && !is_ws_byte(b@[k]),
        decreases n - i,
    {
        if !ws_byte(b[i]) {
            nonws = true;
        }
        i = i + 1;
    }
    proof {
        lemma_tokenize_blank(b@);
        assert(b@ == str_bytes(pattern@));
    }
    if !nonws {
        proof {
            assert(is_blank(b@));
        }
        false
    } else {
        proof {
            assert(!is_blank(b@));
        }
        let r = tokens_ok(b, 0);
        proof {
            assert(b@.skip(0) =~= b@);
        }
        r
    }
}

} // verus!
