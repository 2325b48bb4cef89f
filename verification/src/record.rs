//! The instance record codec.
//!
//! An instance is persisted as a small text record of `key = "value"` lines:
//! a required `name`, an optional `icon` and an optional `game_exe_path`.
//! The grammar is a fixed subset of TOML: blank
//! lines, `#` comments (whole-line or after a value) and unknown keys are
//! tolerated; the three known keys must carry double-quoted strings in which
//! `\"`, `\\`, `\n`, `\t`, `\r`, `\b` and `\f` escapes are understood; a
//! known key given twice is an error.  The renderer emits exactly the three
//! known keys and escapes quotes, backslashes and newlines, so that whatever
//! it writes parses back to the same fields.

use crate::text::{chars_of, push_char, push_str, skip_to_eol, skip_to_eol_x};
use vstd::prelude::*;

verus! {

/// Inline whitespace inside a line (newlines separate lines instead).
pub open spec fn is_ws(c: char) -> bool {
    c == ' ' || c == '\t' || c == '\r'
}

/// Characters allowed in a bare key.
pub open spec fn is_key_char(c: char) -> bool {
    ('a' as u32 <= c as u32 && c as u32 <= 'z' as u32) || ('A' as u32 <= c as u32 && c as u32
        <= 'Z' as u32) || ('0' as u32 <= c as u32 && c as u32 <= '9' as u32) || c == '_' || c
        == '-'
}

/// How one character of a field value is written inside a quoted string.
pub open spec fn esc_char(c: char) -> Seq<char> {
    if c == '"' {
        seq!['\\', '"']
    } else if c == '\\' {
        seq!['\\', '\\']
    } else if c == '\n' {
        seq!['\\', 'n']
    } else {
        seq![c]
    }
}

/// A whole field value as it is written inside a quoted string.
pub open spec fn escape_str(s: Seq<char>) -> Seq<char>
    decreases s.len(),
{
    if s.len() == 0 {
        Seq::empty()
    } else {
        esc_char(s[0]) + escape_str(s.skip(1))
    }
}

/// The character an escape code stands for, and the index after the code.
pub open spec fn unescape_at(s: Seq<char>, i: int) -> Option<(char, int)> {
    if 0 <= i < s.len() {
        let c = s[i];
        if c == '"' {
            Some(('"', i + 1))
        } else if c == '\\' {
            Some(('\\', i + 1))
        } else if c == 'n' {
            Some(('\n', i + 1))
        } else if c == 't' {
            Some(('\t', i + 1))
        } else if c == 'r' {
            Some(('\r', i + 1))
        } else if c == 'b' {
            Some(('\u{8}', i + 1))
        } else if c == 'f' {
            Some(('\u{c}', i + 1))
        } else {
            None
        }
    } else {
        None
    }
}

/// The content of a quoted string whose opening quote stands just before
/// index `i`, together with the index after the closing quote.  A raw
/// newline or the end of the text before the closing quote is an error.
pub open spec fn parse_string_body(s: Seq<char>, i: int) -> Option<(Seq<char>, int)>
    decreases s.len() - i,
{
    if i < 0 || i >= s.len() {
        None
    } else if s[i] == '"' {
        Some((Seq::empty(), i + 1))
    } else if s[i] == '\n' {
        None
    } else if s[i] == '\\' {
        match unescape_at(s, i + 1) {
            None => None,
            Some((c, j)) => if j <= i {
                None
            } else {
                match parse_string_body(s, j) {
                    None => None,
                    Some((rest, end)) => Some((seq![c] + rest, end)),
                }
            },
        }
    } else {
        match parse_string_body(s, i + 1) {
            None => None,
            Some((rest, end)) => Some((seq![s[i]] + rest, end)),
        }
    }
}

/// The longest run of key characters starting at `i`, and the index after it.
pub open spec fn parse_key(s: Seq<char>, i: int) -> (Seq<char>, int)
    decreases s.len() - i,
{
    if 0 <= i < s.len() && is_key_char(s[i]) {
        let (k, j) = parse_key(s, i + 1);
        (seq![s[i]] + k, j)
    } else {
        (Seq::empty(), i)
    }
}

/// The first index at or after `i` holding no inline whitespace.
pub open spec fn skip_ws(s: Seq<char>, i: int) -> int
    decreases s.len() - i,
{
    if 0 <= i < s.len() && is_ws(s[i]) {
        skip_ws(s, i + 1)
    } else {
        i
    }
}

/// Where the next line starts, given that only a newline, a trailing
/// comment or the end of the text may follow at `i`.
pub open spec fn line_end_at(s: Seq<char>, i: int) -> Option<int> {
    if i < 0 {
        None
    } else if i >= s.len() {
        Some(s.len() as int)
    } else if s[i] == '\n' {
        Some(i + 1)
    } else if s[i] == '#' {
        Some(skip_to_eol(s, i))
    } else {
        None
    }
}

/// The keys the record schema knows.
pub open spec fn known_key(k: Seq<char>) -> bool {
    k == "name"@ || k == "icon"@ || k == "game_exe_path"@
}

/// Stores value `v` under key `k`; a key already filled is a duplicate and
/// an error.
pub open spec fn assign_field(
    k: Seq<char>,
    v: Seq<char>,
    name: Option<Seq<char>>,
    icon: Option<Seq<char>>,
    exe: Option<Seq<char>>,
) -> Option<(Option<Seq<char>>, Option<Seq<char>>, Option<Seq<char>>)> {
    if k == "name"@ {
        if name is Some {
            None
        } else {
            Some((Some(v), icon, exe))
        }
    } else if k == "icon"@ {
        if icon is Some {
            None
        } else {
            Some((name, Some(v), exe))
        }
    } else {
        if exe is Some {
            None
        } else {
            Some((name, icon, Some(v)))
        }
    }
}

/// Parses the record text from index `i` with the fields gathered so far.
/// At the end of the text the required `name` must have been seen.  The
/// index bound checks before each recursive step never fail on the values
/// the helpers return; they stand so that the recursion is visibly bounded.
pub open spec fn parse_record_from(
    s: Seq<char>,
    i: int,
    name: Option<Seq<char>>,
    icon: Option<Seq<char>>,
    exe: Option<Seq<char>>,
) -> Option<(Seq<char>, Option<Seq<char>>, Option<Seq<char>>)>
    decreases s.len() - i,
{
    if i < 0 {
        None
    } else {
        let j = skip_ws(s, i);
        if j < i || j > s.len() {
            None
        } else if j >= s.len() {
            match name {
                Some(n) => Some((n, icon, exe)),
                None => None,
            }
        } else if s[j] == '\n' {
            parse_record_from(s, j + 1, name, icon, exe)
        } else if s[j] == '#' {
            let e = skip_to_eol(s, j);
            if e <= i || e > s.len() {
                None
            } else {
                parse_record_from(s, e, name, icon, exe)
            }
        } else {
            let (k, j2) = parse_key(s, j);
            if k.len() == 0 {
                None
            } else {
                let j3 = skip_ws(s, j2);
                if j3 >= s.len() || s[j3] != '=' {
                    None
                } else if known_key(k) {
                    let j4 = skip_ws(s, j3 + 1);
                    if j4 >= s.len() || s[j4] != '"' {
                        None
                    } else {
                        match parse_string_body(s, j4 + 1) {
                            None => None,
                            Some((v, j5)) => match line_end_at(s, skip_ws(s, j5)) {
                                None => None,
                                Some(e) => match assign_field(k, v, name, icon, exe) {
                                    None => None,
                                    Some((n2, i2, e2)) => if e <= i || e > s.len() {
                                        None
                                    } else {
                                        parse_record_from(s, e, n2, i2, e2)
                                    },
                                },
                            },
                        }
                    }
                } else {
                    let e = skip_to_eol(s, j3 + 1);
                    if e <= i || e > s.len() {
                        None
                    } else {
                        parse_record_from(s, e, name, icon, exe)
                    }
                }
            }
        }
    }
}

/// The fields a record text denotes, or `None` if it is malformed.
pub open spec fn spec_parse_record(s: Seq<char>) -> Option<
    (Seq<char>, Option<Seq<char>>, Option<Seq<char>>),
> {
    parse_record_from(s, 0, None, None, None)
}

/// One rendered `key = "value"` line.
pub open spec fn spec_line(key: Seq<char>, v: Seq<char>) -> Seq<char> {
    key + seq![' ', '=', ' ', '"'] + escape_str(v) + seq!['"', '\n']
}

/// The full rendered record: `name` first, then the optional fields.
pub open spec fn spec_render(
    name: Seq<char>,
    icon: Option<Seq<char>>,
    exe: Option<Seq<char>>,
) -> Seq<char> {
    spec_line("name"@, name) + (match icon {
        Some(v) => spec_line("icon"@, v),
        None => Seq::empty(),
    }) + (match exe {
        Some(v) => spec_line("game_exe_path"@, v),
        None => Seq::empty(),
    })
}

/// The view of an optional string.
pub open spec fn opt_view(o: Option<String>) -> Option<Seq<char>> {
    match o {
        Some(s) => Some(s@),
        None => None,
    }
}

/// The persisted fields of an instance: what the record file stores.
pub struct RecordFields {
    pub name: String,
    pub icon: Option<String>,
    pub game_exe_path: Option<String>,
}

pub proof fn lemma_escape_push(s: Seq<char>, c: char)
    ensures
        escape_str(s.push(c)) == escape_str(s) + esc_char(c),
    decreases s.len(),
{
    if s.len() == 0 {
        assert(s.push(c) =~= seq![c]);
        assert(seq![c].skip(1) =~= Seq::<char>::empty());
        assert(escape_str(seq![c]) == esc_char(c) + escape_str(Seq::<char>::empty()));
        assert(escape_str(s.push(c)) =~= escape_str(s) + esc_char(c));
    } else {
        assert(s.push(c).skip(1) =~= s.skip(1).push(c));
        lemma_escape_push(s.skip(1), c);
        assert(escape_str(s.push(c)) =~= escape_str(s) + esc_char(c));
    }
}

proof fn lemma_parse_escaped(pre: Seq<char>, v: Seq<char>, rest: Seq<char>)
    ensures
        parse_string_body(pre + escape_str(v) + seq!['"'] + rest, pre.len() as int) == Some(
            (v, pre.len() + escape_str(v).len() + 1 as int),
        ),
    decreases v.len(),
{
    let s = pre + escape_str(v) + seq!['"'] + rest;
    let i = pre.len() as int;
    if v.len() == 0 {
        assert(escape_str(v) =~= Seq::<char>::empty());
        assert(s[i] == '"');
        assert(v =~= Seq::<char>::empty());
        assert(parse_string_body(s, i) == Some((v, i + 1)));
    } else {
        let c = v[0];
        let v2 = v.skip(1);
        assert(escape_str(v) == esc_char(c) + escape_str(v2));
        if c == '"' || c == '\\' || c == '\n' {
            let x: char = if c == '"' {
                '"'
            } else if c == '\\' {
                '\\'
            } else {
                'n'
            };
            assert(esc_char(c) =~= seq!['\\', x]);
            assert(s[i] == '\\');
            assert(s[i + 1] == x);
            let pre2 = pre + seq!['\\', x];
            lemma_parse_escaped(pre2, v2, rest);
            assert(pre2 + escape_str(v2) + seq!['"'] + rest =~= s);
            assert(unescape_at(s, i + 1) == Some((c, i + 2)));
            assert(parse_string_body(s, i + 2) == Some(
                (v2, pre2.len() + escape_str(v2).len() + 1 as int),
            ));
            assert(seq![c] + v2 =~= v);
            assert(parse_string_body(s, i) == Some((v, pre.len() + escape_str(v).len() + 1 as int)));
        } else {
            assert(esc_char(c) =~= seq![c]);
            assert(s[i] == c);
            let pre2 = pre.push(c);
            lemma_parse_escaped(pre2, v2, rest);
            assert(pre2 + escape_str(v2) + seq!['"'] + rest =~= s);
            assert(parse_string_body(s, i + 1) == Some(
                (v2, pre2.len() + escape_str(v2).len() + 1 as int),
            ));
            assert(seq![c] + v2 =~= v);
            assert(parse_string_body(s, i) == Some((v, pre.len() + escape_str(v).len() + 1 as int)));
        }
    }
}

proof fn lemma_parse_key_run(pre: Seq<char>, k: Seq<char>, rest: Seq<char>)
    requires
        forall|t: int| 0 <= t < k.len() ==> is_key_char(#[trigger] k[t]),
        rest.len() == 0 || !is_key_char(rest[0]),
    ensures
        parse_key(pre + k + rest, pre.len() as int) == (k, pre.len() + k.len() as int),
    decreases k.len(),
{
    let s = pre + k + rest;
    let i = pre.len() as int;
    if k.len() == 0 {
        if rest.len() == 0 {
            assert(i >= s.len());
        } else {
            assert(s[i] == rest[0]);
        }
        assert(k =~= Seq::<char>::empty());
        assert(parse_key(s, i) == (k, i + k.len() as int));
    } else {
        assert(s[i] == k[0]);
        assert(is_key_char(k[0]));
        let pre2 = pre.push(k[0]);
        let k2 = k.skip(1);
        assert forall|t: int| 0 <= t < k2.len() implies is_key_char(#[trigger] k2[t]) by {
            assert(k2[t] == k[t + 1]);
        }
        lemma_parse_key_run(pre2, k2, rest);
        assert(pre2 + k2 + rest =~= s);
        assert(parse_key(s, i + 1) == (k2, pre2.len() + k2.len() as int));
        assert(seq![k[0]] + k2 =~= k);
        assert(parse_key(s, i) == (k, pre.len() + k.len() as int));
    }
}

proof fn lemma_known_key_chars(key: Seq<char>)
    requires
        known_key(key),
    ensures
        key.len() > 0,
        forall|t: int| 0 <= t < key.len() ==> is_key_char(#[trigger] key[t]),
        !is_ws(key[0]),
        key[0] != '\n',
        key[0] != '#',
{
    reveal_strlit("name");
    reveal_strlit("icon");
    reveal_strlit("game_exe_path");
    if key == "name"@ {
        assert forall|t: int| 0 <= t < key.len() implies is_key_char(#[trigger] key[t]) by {
            if t == 0 {
                assert(key[t] == 'n');
            } else if t == 1 {
                assert(key[t] == 'a');
            } else if t == 2 {
                assert(key[t] == 'm');
            } else {
                assert(key[t] == 'e');
            }
        }
        assert(key[0] == 'n');
    } else if key == "icon"@ {
        assert forall|t: int| 0 <= t < key.len() implies is_key_char(#[trigger] key[t]) by {
            if t == 0 {
                assert(key[t] == 'i');
            } else if t == 1 {
                assert(key[t] == 'c');
            } else if t == 2 {
                assert(key[t] == 'o');
            } else {
                assert(key[t] == 'n');
            }
        }
        assert(key[0] == 'i');
    } else {
        assert(key.len() == 13);
        assert forall|t: int| 0 <= t < key.len() implies is_key_char(#[trigger] key[t]) by {
            if t == 0 {
                assert(key[t] == 'g');
            } else if t == 1 || t == 10 {
                assert(key[t] == 'a');
            } else if t == 2 {
                assert(key[t] == 'm');
            } else if t == 3 || t == 5 || t == 7 {
                assert(key[t] == 'e');
            } else if t == 4 || t == 8 {
                assert(key[t] == '_');
            } else if t == 6 {
                assert(key[t] == 'x');
            } else if t == 9 {
                assert(key[t] == 'p');
            } else if t == 11 {
                assert(key[t] == 't');
            } else {
                assert(key[t] == 'h');
            }
        }
        assert(key[0] == 'g');
    }
}

proof fn lemma_parse_line(
    pre: Seq<char>,
    key: Seq<char>,
    v: Seq<char>,
    rest: Seq<char>,
    name: Option<Seq<char>>,
    icon: Option<Seq<char>>,
    exe: Option<Seq<char>>,
)
    requires
        known_key(key),
        assign_field(key, v, name, icon, exe) is Some,
    ensures
        ({
            let s = pre + spec_line(key, v) + rest;
            let st = assign_field(key, v, name, icon, exe)->Some_0;
            parse_record_from(s, pre.len() as int, name, icon, exe) == parse_record_from(
                s,
                pre.len() + spec_line(key, v).len() as int,
                st.0,
                st.1,
                st.2,
            )
        }),
{
    let s = pre + spec_line(key, v) + rest;
    let i = pre.len() as int;
    let esc = escape_str(v);
    assert(s =~= pre + key + seq![' ', '=', ' ', '"'] + esc + seq!['"', '\n'] + rest);
    lemma_known_key_chars(key);
    // the key is read back whole: a space follows it
    assert(!is_key_char(' '));
    let after_key = seq![' ', '=', ' ', '"'] + esc + seq!['"', '\n'] + rest;
    assert(pre + key + after_key =~= s);
    assert(after_key[0] == ' ');
    lemma_parse_key_run(pre, key, after_key);
    assert(parse_key(s, i) == (key, i + key.len()));
    // no whitespace before the key
    assert(s[i] == key[0]);
    assert(skip_ws(s, i) == i);
    // " = \"" between key and value
    let j2 = i + key.len();
    assert(s[j2] == ' ');
    assert(s[j2 + 1] == '=');
    assert(skip_ws(s, j2 + 1) == j2 + 1);
    assert(skip_ws(s, j2) == j2 + 1);
    assert(s[j2 + 2] == ' ');
    assert(s[j2 + 3] == '"');
    assert(skip_ws(s, j2 + 3) == j2 + 3);
    assert(skip_ws(s, j2 + 2) == j2 + 3);
    // the quoted value
    let pre2 = pre + key + seq![' ', '=', ' ', '"'];
    lemma_parse_escaped(pre2, v, seq!['\n'] + rest);
    assert(pre2 + esc + seq!['"'] + (seq!['\n'] + rest) =~= s);
    let j5 = i + key.len() + 4 + esc.len() + 1;
    assert(pre2.len() + esc.len() + 1 == j5);
    assert(parse_string_body(s, j2 + 4) == Some((v, j5)));
    // the line ends right after the closing quote
    assert(s[j5] == '\n');
    assert(skip_ws(s, j5) == j5);
    assert(line_end_at(s, j5) == Some(j5 + 1));
    assert(spec_line(key, v).len() == key.len() + 4 + esc.len() + 2);
    let st = assign_field(key, v, name, icon, exe)->Some_0;
    assert(parse_record_from(s, i, name, icon, exe) == parse_record_from(
        s,
        i + spec_line(key, v).len(),
        st.0,
        st.1,
        st.2,
    ));
}

/// The round trip at the heart of persistence: a rendered record always
/// parses back to exactly the fields it was rendered from.
pub proof fn lemma_record_round_trip(
    name: Seq<char>,
    icon: Option<Seq<char>>,
    exe: Option<Seq<char>>,
)
    ensures
        spec_parse_record(spec_render(name, icon, exe)) == Some((name, icon, exe)),
{
    reveal_strlit("name");
    reveal_strlit("icon");
    reveal_strlit("game_exe_path");
    let ln = spec_line("name"@, name);
    let li = match icon {
        Some(v) => spec_line("icon"@, v),
        None => Seq::<char>::empty(),
    };
    let le = match exe {
        Some(v) => spec_line("game_exe_path"@, v),
        None => Seq::<char>::empty(),
    };
    let s = spec_render(name, icon, exe);
    assert("icon"@ != "name"@) by {
        assert("icon"@[0] == 'i');
        assert("name"@[0] == 'n');
    }
    assert("game_exe_path"@ != "name"@ && "game_exe_path"@ != "icon"@) by {
        assert("game_exe_path"@.len() == 13);
        assert("name"@.len() == 4);
        assert("icon"@.len() == 4);
    }
    // the name line
    lemma_parse_line(Seq::empty(), "name"@, name, li + le, None, None, None);
    assert(Seq::<char>::empty() + ln + (li + le) =~= s);
    let i1 = ln.len() as int;
    assert(parse_record_from(s, 0, None, None, None) == parse_record_from(
        s,
        i1,
        Some(name),
        None,
        None,
    ));
    // the icon line, if any
    let i2 = i1 + li.len();
    if icon is Some {
        lemma_parse_line(ln, "icon"@, icon->Some_0, le, Some(name), None, None);
        assert(ln + li + le =~= s);
        assert(parse_record_from(s, i1, Some(name), None, None) == parse_record_from(
            s,
            i2,
            Some(name),
            icon,
            None,
        ));
    }
    // the executable line, if any
    let i3 = i2 + le.len();
    if exe is Some {
        lemma_parse_line(ln + li, "game_exe_path"@, exe->Some_0, Seq::empty(), Some(name), icon, None);
        assert(ln + li + le + Seq::<char>::empty() =~= s);
        assert(parse_record_from(s, i2, Some(name), icon, None) == parse_record_from(
            s,
            i3,
            Some(name),
            icon,
            exe,
        ));
    }
    // the end of the text: every gathered field is final
    assert(i3 == s.len());
    assert(skip_ws(s, i3) == i3);
    assert(parse_record_from(s, i3, Some(name), icon, exe) == Some((name, icon, exe)));
}

fn skip_ws_x(s: &Vec<char>, i: usize) -> (r: usize)
    requires
        i <= s@.len(),
    ensures
        r as int == skip_ws(s@, i as int),
        i <= r <= s@.len(),
{
    let mut j = i;
    while j < s.len() && (s[j] == ' ' || s[j] == '\t' || s[j] == '\r')
        invariant
            i <= j <= s@.len(),
            skip_ws(s@, i as int) == skip_ws(s@, j as int),
        decreases s@.len() - j,
    {
        j = j + 1;
    }
    j
}

fn key_char(c: char) -> (r: bool)
    ensures
        r == is_key_char(c),
{
    let u = c as u32;
    (97 <= u && u <= 122) || (65 <= u && u <= 90) || (48 <= u && u <= 57) || c == '_' || c == '-'
}

fn parse_key_x(s: &Vec<char>, i: usize) -> (r: (Vec<char>, usize))
    requires
        i <= s@.len(),
    ensures
        parse_key(s@, i as int) == (r.0@, r.1 as int),
        r.1 == i + r.0@.len(),
        r.1 <= s@.len(),
{
    let mut j = i;
    let mut acc: Vec<char> = Vec::new();
    while j < s.len() && key_char(s[j])
        invariant
            i <= j <= s@.len(),
            j == i + acc@.len(),
            parse_key(s@, i as int) == (acc@ + parse_key(s@, j as int).0, parse_key(
                s@,
                j as int,
            ).1),
        decreases s@.len() - j,
    {
        proof {
            assert(is_key_char(s@[j as int]));
        }
        acc.push(s[j]);
        j = j + 1;
        proof {
            assert(acc@ + parse_key(s@, j as int).0 =~= acc@.drop_last() + (seq![
                s@[j - 1 as int],
            ] + parse_key(s@, j as int).0));
        }
    }
    proof {
        assert(!(0 <= j < s@.len() && is_key_char(s@[j as int])));
        assert(parse_key(s@, j as int) == (Seq::<char>::empty(), j as int));
        assert(acc@ + Seq::<char>::empty() =~= acc@);
    }
    (acc, j)
}

fn unescape_x(s: &Vec<char>, i: usize) -> (r: Option<(char, usize)>)
    requires
        i <= s@.len(),
    ensures
        match r {
            Some(p) => unescape_at(s@, i as int) == Some((p.0, p.1 as int)) && p.1 == i + 1 && i
                < s@.len(),
            None => unescape_at(s@, i as int) is None,
        },
{
    if i >= s.len() {
        return None;
    }
    let c = s[i];
    if c == '"' {
        Some(('"', i + 1))
    } else if c == '\\' {
        Some(('\\', i + 1))
    } else if c == 'n' {
        Some(('\n', i + 1))
    } else if c == 't' {
        Some(('\t', i + 1))
    } else if c == 'r' {
        Some(('\r', i + 1))
    } else if c == 'b' {
        Some(('\u{8}', i + 1))
    } else if c == 'f' {
        Some(('\u{c}', i + 1))
    } else {
        None
    }
}

fn parse_string_body_x(s: &Vec<char>, i: usize) -> (r: Option<(String, usize)>)
    requires
        i <= s@.len(),
    ensures
        match r {
            Some(p) => parse_string_body(s@, i as int) == Some((p.0@, p.1 as int)) && i < p.1
                <= s@.len(),
            None => parse_string_body(s@, i as int) is None,
        },
{
    let mut j = i;
    let mut acc = String::new();
    loop
        invariant
            i <= j <= s@.len(),
            match parse_string_body(s@, j as int) {
                None => parse_string_body(s@, i as int) is None,
                Some(p) => parse_string_body(s@, i as int) == Some((acc@ + p.0, p.1)),
            },
        decreases s@.len() - j,
    {
        if j >= s.len() {
            return None;
        }
        let c = s[j];
        if c == '"' {
            proof {
                assert(acc@ + Seq::<char>::empty() =~= acc@);
            }
            return Some((acc, j + 1));
        }
        if c == '\n' {
            return None;
        }
        if c == '\\' {
            match unescape_x(s, j + 1) {
                None => {
                    return None;
                },
                Some((uc, nj)) => {
                    proof {
                        let rec = parse_string_body(s@, nj as int);
                        if rec is Some {
                            assert(acc@.push(uc) + rec->Some_0.0 =~= acc@ + (seq![uc]
                                + rec->Some_0.0));
                        }
                    }
                    push_char(&mut acc, uc);
                    j = nj;
                },
            }
        } else {
            proof {
                let rec = parse_string_body(s@, j + 1 as int);
                if rec is Some {
                    assert(acc@.push(s@[j as int]) + rec->Some_0.0 =~= acc@ + (seq![s@[j as int]]
                        + rec->Some_0.0));
                }
            }
            push_char(&mut acc, c);
            j = j + 1;
        }
    }
}

fn chars_eq_lit(v: &Vec<char>, lit: &str) -> (b: bool)
    ensures
        b == (v@ == lit@),
{
    let n = lit.unicode_len();
    if v.len() != n {
        proof {
            assert(v@.len() != lit@.len());
        }
        return false;
    }
    let mut i: usize = 0;
    while i < n
        invariant
            n == lit@.len(),
            v@.len() == n,
            i <= n,
            forall|t: int| 0 <= t < i ==> v@[t] == lit@[t],
        decreases n - i,
    {
        if v[i] != lit.get_char(i) {
            return false;
        }
        i = i + 1;
    }
    proof {
        assert(v@ =~= lit@);
    }
    true
}

/// Reads the persisted fields back out of a record text, or `None` if the
/// text does not follow the record grammar or leaves out the name.
pub fn parse_record(text: &str) -> (r: Option<RecordFields>)
    ensures
        match r {
            Some(f) => spec_parse_record(text@) == Some(
                (f.name@, opt_view(f.icon), opt_view(f.game_exe_path)),
            ),
            None => spec_parse_record(text@) is None,
        },
{
    let s = chars_of(text);
    let mut i: usize = 0;
    let mut name: Option<String> = None;
    let mut icon: Option<String> = None;
    let mut exe: Option<String> = None;
    loop
        invariant
            s@ == text@,
            i <= s@.len(),
            parse_record_from(s@, 0, None, None, None) == parse_record_from(
                s@,
                i as int,
                opt_view(name),
                opt_view(icon),
                opt_view(exe),
            ),
        decreases s@.len() - i,
    {
        let j = skip_ws_x(&s, i);
        if j >= s.len() {
            return match name {
                Some(n) => Some(RecordFields { name: n, icon, game_exe_path: exe }),
                None => None,
            };
        }
        let c = s[j];
        if c == '\n' {
            i = j + 1;
        } else if c == '#' {
            let e = skip_to_eol_x(&s, j);
            i = e;
        } else {
            let (k, j2) = parse_key_x(&s, j);
            if k.len() == 0 {
                return None;
            }
            let j3 = skip_ws_x(&s, j2);
            if j3 >= s.len() || s[j3] != '=' {
                return None;
            }
            let is_name = chars_eq_lit(&k, "name");
            let is_icon = chars_eq_lit(&k, "icon");
            let is_exe = chars_eq_lit(&k, "game_exe_path");
            if is_name || is_icon || is_exe {
                let j4 = skip_ws_x(&s, j3 + 1);
                if j4 >= s.len() || s[j4] != '"' {
                    return None;
                }
                match parse_string_body_x(&s, j4 + 1) {
                    None => {
                        return None;
                    },
                    Some((v, j5)) => {
                        let j6 = skip_ws_x(&s, j5);
                        let e: usize;
                        if j6 >= s.len() {
                            e = s.len();
                        } else if s[j6] == '\n' {
                            e = j6 + 1;
                        } else if s[j6] == '#' {
                            e = skip_to_eol_x(&s, j6);
                        } else {
                            return None;
                        }
                        if is_name {
                            if name.is_some() {
                                return None;
                            }
                            name = Some(v);
                        } else if is_icon {
                            if icon.is_some() {
                                return None;
                            }
                            icon = Some(v);
                        } else {
                            if exe.is_some() {
                                return None;
                            }
                            exe = Some(v);
                        }
                        i = e;
                    },
                }
            } else {
                let e = skip_to_eol_x(&s, j3 + 1);
                i = e;
            }
        }
    }
}

fn escape_into(out: &mut String, v: &str)
    ensures
        final(out)@ == old(out)@ + escape_str(v@),
{
    let cs = chars_of(v);
    let mut i: usize = 0;
    while i < cs.len()
        invariant
            cs@ == v@,
            i <= cs@.len(),
            out@ == old(out)@ + escape_str(v@.take(i as int)),
        decreases cs@.len() - i,
    {
        let c = cs[i];
        if c == '"' {
            push_char(out, '\\');
            push_char(out, '"');
        } else if c == '\\' {
            push_char(out, '\\');
            push_char(out, '\\');
        } else if c == '\n' {
            push_char(out, '\\');
            push_char(out, 'n');
        } else {
            push_char(out, c);
        }
        proof {
            lemma_escape_push(v@.take(i as int), v@[i as int]);
            assert(v@.take(i + 1 as int) =~= v@.take(i as int).push(v@[i as int]));
            assert(out@ =~= old(out)@ + escape_str(v@.take(i + 1 as int)));
        }
        i = i + 1;
    }
    proof {
        assert(v@.take(v@.len() as int) =~= v@);
    }
}

fn write_line(out: &mut String, key: &str, v: &str)
    ensures
        final(out)@ == old(out)@ + spec_line(key@, v@),
{
    push_str(out, key);
    push_str(out, " = \"");
    escape_into(out, v);
    push_str(out, "\"\n");
    proof {
        reveal_strlit(" = \"");
        reveal_strlit("\"\n");
        assert(" = \""@ =~= seq![' ', '=', ' ', '"']);
        assert("\"\n"@ =~= seq!['"', '\n']);
        assert(out@ =~= old(out)@ + spec_line(key@, v@));
    }
}

/// Writes the persisted fields out as a record text.  The text parses back
/// to exactly the same fields; `lemma_record_round_trip` states that in full.
pub fn render_record(f: &RecordFields) -> (r: String)
    ensures
        r@ == spec_render(f.name@, opt_view(f.icon), opt_view(f.game_exe_path)),
{
    let mut out = String::new();
    write_line(&mut out, "name", f.name.as_str());
    if let Some(v) = &f.icon {
        write_line(&mut out, "icon", v.as_str());
    }
    if let Some(v) = &f.game_exe_path {
        write_line(&mut out, "game_exe_path", v.as_str());
    }
    proof {
        assert(out@ =~= spec_render(f.name@, opt_view(f.icon), opt_view(f.game_exe_path)));
    }
    out
}

} // verus!
