//! A parser for the relaxed JSON dialect of the mod metadata files.
//!
//! The dialect is JSON extended the way the metadata files in the wild use
//! it: `//` and `/* */` comments, trailing commas, unquoted member keys and
//! single-quoted strings.  A text is one object; its direct members are
//! handed to the caller as a sequence of key/value pairs in which a value is
//! either the content of a string or `Other` — a number, boolean, null,
//! array or nested object, which the metadata mapping never looks into but
//! which must still be well-formed so that the member list can be read past
//! it.  String escapes cover the JSON set plus `\v`, `\0`, `\'` and `\/`;
//! a `\uXXXX` escape is accepted for codes below 128.

use crate::text::push_char;
use crate::text::{skip_to_eol, skip_to_eol_x};
use vstd::prelude::*;

verus! {

/// A member value as the metadata mapping sees it.
pub enum FieldVal {
    Text(Seq<char>),
    Other,
}

/// Whitespace between tokens.
pub open spec fn is_jws(c: char) -> bool {
    c == ' ' || c == '\t' || c == '\n' || c == '\r'
}

/// Characters a primitive token (number, boolean, null, bare word) is made
/// of.
pub open spec fn is_prim_char(c: char) -> bool {
    ('a' as u32 <= c as u32 && c as u32 <= 'z' as u32) || ('A' as u32 <= c as u32 && c as u32
        <= 'Z' as u32) || ('0' as u32 <= c as u32 && c as u32 <= '9' as u32) || c == '+' || c
        == '-' || c == '.'
}

/// Characters an unquoted member key is made of.
pub open spec fn is_ident_char(c: char) -> bool {
    ('a' as u32 <= c as u32 && c as u32 <= 'z' as u32) || ('A' as u32 <= c as u32 && c as u32
        <= 'Z' as u32) || ('0' as u32 <= c as u32 && c as u32 <= '9' as u32) || c == '_' || c
        == '$'
}

/// The value of a hexadecimal digit.
pub open spec fn hexval(c: char) -> Option<int> {
    if '0' as u32 <= c as u32 && c as u32 <= '9' as u32 {
        Some(c as u32 - '0' as u32)
    } else if 'a' as u32 <= c as u32 && c as u32 <= 'f' as u32 {
        Some(c as u32 - 'a' as u32 + 10)
    } else if 'A' as u32 <= c as u32 && c as u32 <= 'F' as u32 {
        Some(c as u32 - 'A' as u32 + 10)
    } else {
        None
    }
}

/// The index just after the closing `*/` of a block comment, or `None` if
/// the comment never closes.
pub open spec fn find_block_end(s: Seq<char>, i: int) -> Option<int>
    decreases s.len() - i,
{
    if i < 0 || i + 1 >= s.len() {
        None
    } else if s[i] == '*' && s[i + 1] == '/' {
        Some(i + 2)
    } else {
        find_block_end(s, i + 1)
    }
}

/// The first index at or after `i` past all whitespace and comments, or
/// `None` on an unterminated block comment.
pub open spec fn skip_trivia(s: Seq<char>, i: int) -> Option<int>
    decreases s.len() - i,
{
    if i < 0 {
        None
    } else if i >= s.len() {
        Some(i)
    } else if is_jws(s[i]) {
        skip_trivia(s, i + 1)
    } else if s[i] == '/' {
        if i + 1 < s.len() && s[i + 1] == '/' {
            let e = skip_to_eol(s, i + 1);
            if e <= i || e > s.len() {
                None
            } else {
                skip_trivia(s, e)
            }
        } else if i + 1 < s.len() && s[i + 1] == '*' {
            match find_block_end(s, i + 2) {
                None => None,
                Some(e) => if e <= i || e > s.len() {
                    None
                } else {
                    skip_trivia(s, e)
                },
            }
        } else {
            Some(i)
        }
    } else {
        Some(i)
    }
}

/// The character a string escape code stands for, and the index after the
/// code.  `\uXXXX` is understood for codes below 128.
pub open spec fn junescape(s: Seq<char>, i: int) -> Option<(char, int)> {
    if i < 0 || i >= s.len() {
        None
    } else {
        let c = s[i];
        if c == 'n' {
            Some(('\n', i + 1))
        } else if c == 't' {
            Some(('\t', i + 1))
        } else if c == 'r' {
            Some(('\r', i + 1))
        } else if c == 'b' {
            Some(('\u{8}', i + 1))
        } else if c == 'f' {
            Some(('\u{c}', i + 1))
        } else if c == 'v' {
            Some(('\u{b}', i + 1))
        } else if c == '0' {
            Some(('\u{0}', i + 1))
        } else if c == '"' || c == '\'' || c == '\\' || c == '/' {
            Some((c, i + 1))
        } else if c == 'u' {
            if i + 5 <= s.len() {
                match (hexval(s[i + 1]), hexval(s[i + 2]), hexval(s[i + 3]), hexval(s[i + 4])) {
                    (Some(h1), Some(h2), Some(h3), Some(h4)) => {
                        let v = h1 * 4096 + h2 * 256 + h3 * 16 + h4;
                        if v < 128 {
                            Some(((v as u8) as char, i + 5))
                        } else {
                            None
                        }
                    },
                    _ => None,
                }
            } else {
                None
            }
        } else {
            None
        }
    }
}

/// The content of a string quoted with `q` whose opening quote stands just
/// before index `i`, and the index after the closing quote.
pub open spec fn jstring_body(s: Seq<char>, i: int, q: char) -> Option<(Seq<char>, int)>
    decreases s.len() - i,
{
    if i < 0 || i >= s.len() {
        None
    } else if s[i] == q {
        Some((Seq::empty(), i + 1))
    } else if s[i] == '\n' {
        None
    } else if s[i] == '\\' {
        match junescape(s, i + 1) {
            None => None,
            Some((c, j)) => if j <= i {
                None
            } else {
                match jstring_body(s, j, q) {
                    None => None,
                    Some((rest, end)) => Some((seq![c] + rest, end)),
                }
            },
        }
    } else {
        match jstring_body(s, i + 1, q) {
            None => None,
            Some((rest, end)) => Some((seq![s[i]] + rest, end)),
        }
    }
}

/// The longest run of identifier characters starting at `i`, and the index
/// after it.
pub open spec fn parse_ident(s: Seq<char>, i: int) -> (Seq<char>, int)
    decreases s.len() - i,
{
    if 0 <= i < s.len() && is_ident_char(s[i]) {
        let (k, j) = parse_ident(s, i + 1);
        (seq![s[i]] + k, j)
    } else {
        (Seq::empty(), i)
    }
}

/// The first index at or after `i` past the primitive token characters.
pub open spec fn skip_prim(s: Seq<char>, i: int) -> int
    decreases s.len() - i,
{
    if 0 <= i < s.len() && is_prim_char(s[i]) {
        skip_prim(s, i + 1)
    } else {
        i
    }
}

/// The index after the value starting at `i`: a string, an object, an
/// array or a primitive token.
pub open spec fn skip_value(s: Seq<char>, i: int) -> Option<int>
    decreases s.len() - i, 0int,
{
    if i < 0 || i >= s.len() {
        None
    } else {
        let c = s[i];
        if c == '"' || c == '\'' {
            match jstring_body(s, i + 1, c) {
                None => None,
                Some((v, j)) => Some(j),
            }
        } else if c == '{' {
            match parse_members(s, i + 1, Seq::empty()) {
                None => None,
                Some((pairs, e)) => Some(e),
            }
        } else if c == '[' {
            skip_array_items(s, i + 1)
        } else if is_prim_char(c) {
            let e = skip_prim(s, i);
            if e <= i {
                None
            } else {
                Some(e)
            }
        } else {
            None
        }
    }
}

/// The index after the `]` closing an array whose items start at `i`.
pub open spec fn skip_array_items(s: Seq<char>, i: int) -> Option<int>
    decreases s.len() - i, 1int,
{
    match skip_trivia(s, i) {
        None => None,
        Some(j) => if j < i || j >= s.len() {
            None
        } else if s[j] == ']' {
            Some(j + 1)
        } else {
            match skip_value(s, j) {
                None => None,
                Some(e) => match skip_trivia(s, e) {
                    None => None,
                    Some(j2) => if j2 < i || j2 >= s.len() {
                        None
                    } else if s[j2] == ',' {
                        skip_array_items(s, j2 + 1)
                    } else if s[j2] == ']' {
                        Some(j2 + 1)
                    } else {
                        None
                    },
                },
            }
        },
    }
}

/// The members of an object from index `i` (just after the `{` or a comma),
/// appended to `acc`, and the index after the closing `}`.  String values
/// are captured; any other value is skipped and recorded as `Other`.  Here
/// and in its neighbours, the index bound checks before recursive steps
/// never fail on the values the helpers return; they stand so that the
/// recursion is visibly bounded.
pub open spec fn parse_members(s: Seq<char>, i: int, acc: Seq<(Seq<char>, FieldVal)>) -> Option<
    (Seq<(Seq<char>, FieldVal)>, int),
>
    decreases s.len() - i, 1int,
{
    match skip_trivia(s, i) {
        None => None,
        Some(j) => if j < i || j >= s.len() {
            None
        } else if s[j] == '}' {
            Some((acc, j + 1))
        } else {
            let key = if s[j] == '"' || s[j] == '\'' {
                match jstring_body(s, j + 1, s[j]) {
                    None => None,
                    Some((k, j2)) => Some((k, j2)),
                }
            } else {
                let (k, j2) = parse_ident(s, j);
                if k.len() == 0 {
                    None
                } else {
                    Some((k, j2))
                }
            };
            match key {
                None => None,
                Some((k, j2)) => match skip_trivia(s, j2) {
                    None => None,
                    Some(j3) => if j3 >= s.len() || s[j3] != ':' {
                        None
                    } else {
                        match skip_trivia(s, j3 + 1) {
                            None => None,
                            Some(j4) => if j4 < i || j4 >= s.len() {
                                None
                            } else {
                                let value = if s[j4] == '"' || s[j4] == '\'' {
                                    match jstring_body(s, j4 + 1, s[j4]) {
                                        None => None,
                                        Some((v, j5)) => Some((FieldVal::Text(v), j5)),
                                    }
                                } else {
                                    match skip_value(s, j4) {
                                        None => None,
                                        Some(j5) => Some((FieldVal::Other, j5)),
                                    }
                                };
                                match value {
                                    None => None,
                                    Some((v, j5)) => match skip_trivia(s, j5) {
                                        None => None,
                                        Some(j6) => if j6 < i || j6 >= s.len() {
                                            None
                                        } else if s[j6] == ',' {
                                            parse_members(s, j6 + 1, acc.push((k, v)))
                                        } else if s[j6] == '}' {
                                            Some((acc.push((k, v)), j6 + 1))
                                        } else {
                                            None
                                        },
                                    },
                                }
                            },
                        }
                    },
                },
            }
        },
    }
}

/// The key/value pairs of the one object a metadata text holds, or `None`
/// if the text is not a single well-formed object.
pub open spec fn spec_parse_object(s: Seq<char>) -> Option<Seq<(Seq<char>, FieldVal)>> {
    match skip_trivia(s, 0) {
        None => None,
        Some(j) => if j >= s.len() || s[j] != '{' {
            None
        } else {
            match parse_members(s, j + 1, Seq::empty()) {
                None => None,
                Some((pairs, e)) => match skip_trivia(s, e) {
                    None => None,
                    Some(j2) => if j2 == s.len() {
                        Some(pairs)
                    } else {
                        None
                    },
                },
            }
        },
    }
}

/// The value under the first member named `key`, if any.
pub open spec fn lookup(pairs: Seq<(Seq<char>, FieldVal)>, key: Seq<char>) -> Option<FieldVal>
    decreases pairs.len(),
{
    if pairs.len() == 0 {
        None
    } else if pairs[0].0 == key {
        Some(pairs[0].1)
    } else {
        lookup(pairs.skip(1), key)
    }
}

/// The value under the first of the accepted key spellings that is present,
/// the spellings tried in priority order.
pub open spec fn lookup_first(pairs: Seq<(Seq<char>, FieldVal)>, keys: Seq<Seq<char>>) -> Option<
    FieldVal,
>
    decreases keys.len(),
{
    if keys.len() == 0 {
        None
    } else {
        match lookup(pairs, keys[0]) {
            Some(v) => Some(v),
            None => lookup_first(pairs, keys.skip(1)),
        }
    }
}

/// Looking a key up in a member list that does not hold it yet finds an
/// appended member exactly when that member carries the key.
pub proof fn lemma_lookup_absent_push(
    pairs: Seq<(Seq<char>, FieldVal)>,
    p: (Seq<char>, FieldVal),
    key: Seq<char>,
)
    requires
        lookup(pairs, key) is None,
    ensures
        lookup(pairs.push(p), key) == (if p.0 == key {
            Some(p.1)
        } else {
            None::<FieldVal>
        }),
    decreases pairs.len(),
{
    if pairs.len() == 0 {
        reveal_with_fuel(lookup, 3);
        assert(pairs.push(p) =~= seq![p]);
        assert(seq![p].skip(1) =~= Seq::<(Seq<char>, FieldVal)>::empty());
    } else {
        assert(pairs.push(p).skip(1) =~= pairs.skip(1).push(p));
        lemma_lookup_absent_push(pairs.skip(1), p, key);
    }
}

/// One parsed member, as built by the parser.
pub enum PairVal {
    Text(String),
    Other,
}

pub struct Pair {
    pub key: String,
    pub val: PairVal,
}

pub open spec fn pair_view(p: Pair) -> (Seq<char>, FieldVal) {
    (
        p.key@,
        match p.val {
            PairVal::Text(s) => FieldVal::Text(s@),
            PairVal::Other => FieldVal::Other,
        },
    )
}

pub open spec fn pairs_view(ps: Seq<Pair>) -> Seq<(Seq<char>, FieldVal)> {
    ps.map_values(|p: Pair| pair_view(p))
}

proof fn lemma_pairs_view_push(ps: Seq<Pair>, p: Pair)
    ensures
        pairs_view(ps.push(p)) == pairs_view(ps).push(pair_view(p)),
{
    assert(pairs_view(ps.push(p)) =~= pairs_view(ps).push(pair_view(p)));
}

fn hexval_x(c: char) -> (r: Option<u32>)
    ensures
        match r {
            Some(d) => hexval(c) == Some(d as int),
            None => hexval(c) is None,
        },
{
    let u = c as u32;
    if 48 <= u && u <= 57 {
        Some(u - 48)
    } else if 97 <= u && u <= 102 {
        Some(u - 97 + 10)
    } else if 65 <= u && u <= 70 {
        Some(u - 65 + 10)
    } else {
        None
    }
}

fn find_block_end_x(s: &Vec<char>, i: usize) -> (r: Option<usize>)
    requires
        i <= s@.len(),
    ensures
        match r {
            Some(e) => find_block_end(s@, i as int) == Some(e as int) && i + 2 <= e <= s@.len(),
            None => find_block_end(s@, i as int) is None,
        },
{
    let mut j = i;
    loop
        invariant
            i <= j <= s@.len(),
            find_block_end(s@, i as int) == find_block_end(s@, j as int),
        decreases s@.len() - j,
    {
        if j >= s.len() {
            return None;
        }
        if j + 1 >= s.len() {
            return None;
        }
        if s[j] == '*' && s[j + 1] == '/' {
            return Some(j + 2);
        }
        j = j + 1;
    }
}

fn skip_trivia_x(s: &Vec<char>, i: usize) -> (r: Option<usize>)
    requires
        i <= s@.len(),
    ensures
        match r {
            Some(j) => skip_trivia(s@, i as int) == Some(j as int) && i <= j <= s@.len(),
            None => skip_trivia(s@, i as int) is None,
        },
{
    let mut j = i;
    loop
        invariant
            i <= j <= s@.len(),
            skip_trivia(s@, i as int) == skip_trivia(s@, j as int),
        decreases s@.len() - j,
    {
        if j >= s.len() {
            return Some(j);
        }
        let c = s[j];
        if c == ' ' || c == '\t' || c == '\n' || c == '\r' {
            j = j + 1;
        } else if c == '/' {
            if j + 1 < s.len() && s[j + 1] == '/' {
                let e = skip_to_eol_x(s, j + 1);
                j = e;
            } else if j + 1 < s.len() && s[j + 1] == '*' {
                match find_block_end_x(s, j + 2) {
                    None => {
                        return None;
                    },
                    Some(e) => {
                        j = e;
                    },
                }
            } else {
                return Some(j);
            }
        } else {
            return Some(j);
        }
    }
}

fn junescape_x(s: &Vec<char>, i: usize) -> (r: Option<(char, usize)>)
    requires
        i <= s@.len(),
    ensures
        match r {
            Some(p) => junescape(s@, i as int) == Some((p.0, p.1 as int)) && i < p.1 <= s@.len(),
            None => junescape(s@, i as int) is None,
        },
{
    if i >= s.len() {
        return None;
    }
    let c = s[i];
    if c == 'n' {
        Some(('\n', i + 1))
    } else if c == 't' {
        Some(('\t', i + 1))
    } else if c == 'r' {
        Some(('\r', i + 1))
    } else if c == 'b' {
        Some(('\u{8}', i + 1))
    } else if c == 'f' {
        Some(('\u{c}', i + 1))
    } else if c == 'v' {
        Some(('\u{b}', i + 1))
    } else if c == '0' {
        Some(('\u{0}', i + 1))
    } else if c == '"' || c == '\'' || c == '\\' || c == '/' {
        Some((c, i + 1))
    } else if c == 'u' {
        if s.len() >= 5 && i <= s.len() - 5 {
            let h1 = hexval_x(s[i + 1]);
            let h2 = hexval_x(s[i + 2]);
            let h3 = hexval_x(s[i + 3]);
            let h4 = hexval_x(s[i + 4]);
            match (h1, h2, h3, h4) {
                (Some(d1), Some(d2), Some(d3), Some(d4)) => {
                    let v = d1 * 4096 + d2 * 256 + d3 * 16 + d4;
                    if v < 128 {
                        Some(((v as u8) as char, i + 5))
                    } else {
                        None
                    }
                },
                _ => None,
            }
        } else {
            None
        }
    } else {
        None
    }
}

fn jstring_body_x(s: &Vec<char>, i: usize, q: char) -> (r: Option<(String, usize)>)
    requires
        i <= s@.len(),
    ensures
        match r {
            Some(p) => jstring_body(s@, i as int, q) == Some((p.0@, p.1 as int)) && i < p.1
                <= s@.len(),
            None => jstring_body(s@, i as int, q) is None,
        },
{
    let mut j = i;
    let mut acc = String::new();
    loop
        invariant
            i <= j <= s@.len(),
            match jstring_body(s@, j as int, q) {
                None => jstring_body(s@, i as int, q) is None,
                Some(p) => jstring_body(s@, i as int, q) == Some((acc@ + p.0, p.1)),
            },
        decreases s@.len() - j,
    {
        if j >= s.len() {
            return None;
        }
        let c = s[j];
        if c == q {
            proof {
                assert(acc@ + Seq::<char>::empty() =~= acc@);
            }
            return Some((acc, j + 1));
        }
        if c == '\n' {
            return None;
        }
        if c == '\\' {
            match junescape_x(s, j + 1) {
                None => {
                    return None;
                },
                Some((uc, nj)) => {
                    proof {
                        let rec = jstring_body(s@, nj as int, q);
                        if rec is Some {
                            assert(acc@.push(uc) + rec->Some_0.0 =~= acc@ + (seq![uc]
                                + rec->Some_0.0));
                        }
                    }
                    push_char(&mut acc, uc);
                    j = nj;
                },
            }
        } else {
            proof {
                let rec = jstring_body(s@, j + 1 as int, q);
                if rec is Some {
                    assert(acc@.push(s@[j as int]) + rec->Some_0.0 =~= acc@ + (seq![s@[j as int]]
                        + rec->Some_0.0));
                }
            }
            push_char(&mut acc, c);
            j = j + 1;
        }
    }
}

fn ident_char(c: char) -> (r: bool)
    ensures
        r == is_ident_char(c),
{
    let u = c as u32;
    (97 <= u && u <= 122) || (65 <= u && u <= 90) || (48 <= u && u <= 57) || c == '_' || c == '$'
}

fn parse_ident_x(s: &Vec<char>, i: usize) -> (r: (String, usize))
    requires
        i <= s@.len(),
    ensures
        parse_ident(s@, i as int) == (r.0@, r.1 as int),
        r.1 == i + r.0@.len(),
        r.1 <= s@.len(),
{
    let mut j = i;
    let mut acc = String::new();
    while j < s.len() && ident_char(s[j])
        invariant
            i <= j <= s@.len(),
            j == i + acc@.len(),
            parse_ident(s@, i as int) == (acc@ + parse_ident(s@, j as int).0, parse_ident(
                s@,
                j as int,
            ).1),
        decreases s@.len() - j,
    {
        proof {
            let rec = parse_ident(s@, j + 1 as int);
            assert(acc@.push(s@[j as int]) + rec.0 =~= acc@ + (seq![s@[j as int]] + rec.0));
        }
        push_char(&mut acc, s[j]);
        j = j + 1;
    }
    proof {
        assert(parse_ident(s@, j as int) == (Seq::<char>::empty(), j as int));
        assert(acc@ + Seq::<char>::empty() =~= acc@);
    }
    (acc, j)
}

fn prim_char(c: char) -> (r: bool)
    ensures
        r == is_prim_char(c),
{
    let u = c as u32;
    (97 <= u && u <= 122) || (65 <= u && u <= 90) || (48 <= u && u <= 57) || c == '+' || c == '-'
        || c == '.'
}

fn skip_prim_x(s: &Vec<char>, i: usize) -> (r: usize)
    requires
        i <= s@.len(),
    ensures
        r as int == skip_prim(s@, i as int),
        i <= r <= s@.len(),
{
    let mut j = i;
    while j < s.len() && prim_char(s[j])
        invariant
            i <= j <= s@.len(),
            skip_prim(s@, i as int) == skip_prim(s@, j as int),
        decreases s@.len() - j,
    {
        j = j + 1;
    }
    j
}

fn skip_value_x(s: &Vec<char>, i: usize) -> (r: Option<usize>)
    requires
        i <= s@.len(),
    ensures
        match r {
            Some(e) => skip_value(s@, i as int) == Some(e as int) && i < e <= s@.len(),
            None => skip_value(s@, i as int) is None,
        },
    decreases s@.len() - i, 0int,
{
    if i >= s.len() {
        return None;
    }
    let c = s[i];
    if c == '"' || c == '\'' {
        match jstring_body_x(s, i + 1, c) {
            None => None,
            Some((_v, j)) => Some(j),
        }
    } else if c == '{' {
        proof {
            assert(pairs_view(Seq::<Pair>::empty()) =~= Seq::<(Seq<char>, FieldVal)>::empty());
        }
        match parse_members_x(s, i + 1, Vec::new()) {
            None => None,
            Some((_ps, e)) => Some(e),
        }
    } else if c == '[' {
        skip_array_items_x(s, i + 1)
    } else if prim_char(c) {
        let e = skip_prim_x(s, i);
        if e <= i {
            None
        } else {
            Some(e)
        }
    } else {
        None
    }
}

fn skip_array_items_x(s: &Vec<char>, i: usize) -> (r: Option<usize>)
    requires
        i <= s@.len(),
    ensures
        match r {
            Some(e) => skip_array_items(s@, i as int) == Some(e as int) && i < e <= s@.len(),
            None => skip_array_items(s@, i as int) is None,
        },
    decreases s@.len() - i, 1int,
{
    match skip_trivia_x(s, i) {
        None => None,
        Some(j) => {
            if j >= s.len() {
                return None;
            }
            if s[j] == ']' {
                return Some(j + 1);
            }
            match skip_value_x(s, j) {
                None => None,
                Some(e) => match skip_trivia_x(s, e) {
                    None => None,
                    Some(j2) => {
                        if j2 >= s.len() {
                            return None;
                        }
                        if s[j2] == ',' {
                            skip_array_items_x(s, j2 + 1)
                        } else if s[j2] == ']' {
                            Some(j2 + 1)
                        } else {
                            None
                        }
                    },
                },
            }
        },
    }
}

fn parse_members_x(s: &Vec<char>, i: usize, acc: Vec<Pair>) -> (r: Option<(Vec<Pair>, usize)>)
    requires
        i <= s@.len(),
    ensures
        match r {
            Some(p) => parse_members(s@, i as int, pairs_view(acc@)) == Some(
                (pairs_view(p.0@), p.1 as int),
            ) && i < p.1 <= s@.len(),
            None => parse_members(s@, i as int, pairs_view(acc@)) is None,
        },
    decreases s@.len() - i, 1int,
{
    let mut acc = acc;
    match skip_trivia_x(s, i) {
        None => None,
        Some(j) => {
            if j >= s.len() {
                return None;
            }
            if s[j] == '}' {
                return Some((acc, j + 1));
            }
            let key: (String, usize);
            let cq = s[j];
            if cq == '"' || cq == '\'' {
                match jstring_body_x(s, j + 1, cq) {
                    None => {
                        return None;
                    },
                    Some((k, j2)) => {
                        key = (k, j2);
                    },
                }
            } else {
                let (k, j2) = parse_ident_x(s, j);
                if k.unicode_len() == 0 {
                    return None;
                }
                key = (k, j2);
            }
            let (k, j2) = key;
            match skip_trivia_x(s, j2) {
                None => None,
                Some(j3) => {
                    if j3 >= s.len() || s[j3] != ':' {
                        return None;
                    }
                    match skip_trivia_x(s, j3 + 1) {
                        None => None,
                        Some(j4) => {
                            if j4 >= s.len() {
                                return None;
                            }
                            let value: (PairVal, usize);
                            let vq = s[j4];
                            if vq == '"' || vq == '\'' {
                                match jstring_body_x(s, j4 + 1, vq) {
                                    None => {
                                        return None;
                                    },
                                    Some((v, j5)) => {
                                        value = (PairVal::Text(v), j5);
                                    },
                                }
                            } else {
                                match skip_value_x(s, j4) {
                                    None => {
                                        return None;
                                    },
                                    Some(j5) => {
                                        value = (PairVal::Other, j5);
                                    },
                                }
                            }
                            let (v, j5) = value;
                            match skip_trivia_x(s, j5) {
                                None => None,
                                Some(j6) => {
                                    if j6 >= s.len() {
                                        return None;
                                    }
                                    let ghost old_pairs = pairs_view(acc@);
                                    let ghost pv = pair_view(Pair { key: k, val: v });
                                    if s[j6] == ',' {
                                        proof {
                                            lemma_pairs_view_push(
                                                acc@,
                                                Pair { key: k, val: v },
                                            );
                                        }
                                        acc.push(Pair { key: k, val: v });
                                        parse_members_x(s, j6 + 1, acc)
                                    } else if s[j6] == '}' {
                                        proof {
                                            lemma_pairs_view_push(
                                                acc@,
                                                Pair { key: k, val: v },
                                            );
                                        }
                                        acc.push(Pair { key: k, val: v });
                                        Some((acc, j6 + 1))
                                    } else {
                                        None
                                    }
                                },
                            }
                        },
                    }
                },
            }
        },
    }
}

/// Parses a whole metadata text into the members of its one object, or
/// `None` if the text is not a single well-formed object.
pub fn parse_object(s: &Vec<char>) -> (r: Option<Vec<Pair>>)
    ensures
        match r {
            Some(ps) => spec_parse_object(s@) == Some(pairs_view(ps@)),
            None => spec_parse_object(s@) is None,
        },
{
    match skip_trivia_x(s, 0) {
        None => None,
        Some(j) => {
            if j >= s.len() || s[j] != '{' {
                return None;
            }
            proof {
                assert(pairs_view(Seq::<Pair>::empty()) =~= Seq::<(Seq<char>, FieldVal)>::empty());
            }
            match parse_members_x(s, j + 1, Vec::new()) {
                None => None,
                Some((pairs, e)) => match skip_trivia_x(s, e) {
                    None => None,
                    Some(j2) => {
                        if j2 == s.len() {
                            Some(pairs)
                        } else {
                            None
                        }
                    },
                },
            }
        },
    }
}

/// Finds the first member named `key`, handing back its index.
pub fn lookup_idx(pairs: &Vec<Pair>, key: &str) -> (r: Option<usize>)
    ensures
        match r {
            Some(t) => t < pairs@.len() && lookup(pairs_view(pairs@), key@) == Some(
                pair_view(pairs@[t as int]).1,
            ),
            None => lookup(pairs_view(pairs@), key@) is None,
        },
{
    let mut t: usize = 0;
    proof {
        assert(pairs_view(pairs@).skip(0) =~= pairs_view(pairs@));
    }
    while t < pairs.len()
        invariant
            t <= pairs@.len(),
            lookup(pairs_view(pairs@), key@) == lookup(
                pairs_view(pairs@).skip(t as int),
                key@,
            ),
        decreases pairs@.len() - t,
    {
        proof {
            assert(pairs_view(pairs@).skip(t as int)[0] == pair_view(pairs@[t as int]));
        }
        if crate::text::str_eq_str(pairs[t].key.as_str(), key) {
            return Some(t);
        }
        proof {
            assert(pairs_view(pairs@).skip(t as int).skip(1) =~= pairs_view(pairs@).skip(
                t + 1 as int,
            ));
        }
        t = t + 1;
    }
    proof {
        assert(pairs_view(pairs@).skip(t as int) =~= Seq::<(Seq<char>, FieldVal)>::empty());
    }
    None
}

} // verus!
