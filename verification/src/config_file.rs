//! The configuration file: lines of `key = value`, where `socket`,
//! `compositor` and `log_level` take a quoted string and `max_clients` a
//! number; blank lines and lines starting with `#` are skipped. Its values
//! override the defaults, and command-line options override it.

use vstd::prelude::*;
use vstd::string::*;
use crate::cli::{config_view, parse_count, parse_count_arg, ConfigView};
use crate::config::BridgeConfig;

verus! {

/// Why the configuration file was refused.
#[derive(Debug, Clone, Copy, PartialEq, Eq, Structural)]
pub enum ConfigFileError {
    /// A line that is neither blank, a comment, nor `key = value`, or a
    /// string value without its quotes.
    Malformed,
    /// A key that is not one of the four.
    UnknownKey,
    /// `max_clients` that is not a decimal number fitting in 32 bits.
    BadNumber,
}

pub open spec fn is_blank(c: char) -> bool {
    c == ' ' || c == '\t' || c == '\r'
}

/// The first index at or after `i` holding `c`, or the length.
pub open spec fn find_from(s: Seq<char>, c: char, i: int) -> int
    decreases s.len() - i,
{
    if i >= s.len() {
        s.len() as int
    } else if s[i] == c {
        i
    } else {
        find_from(s, c, i + 1)
    }
}

/// The first index at or after `i` that is not blank, or the length.
pub open spec fn skip_blank(s: Seq<char>, i: int) -> int
    decreases s.len() - i,
{
    if i >= s.len() {
        s.len() as int
    } else if is_blank(s[i]) {
        skip_blank(s, i + 1)
    } else {
        i
    }
}

/// The end of `s` up to `j` without trailing blanks, not below `lo`.
pub open spec fn back_blank(s: Seq<char>, lo: int, j: int) -> int
    decreases j - lo,
{
    if j <= lo {
        lo
    } else if is_blank(s[j - 1]) {
        back_blank(s, lo, j - 1)
    } else {
        j
    }
}

/// `s` without leading and trailing blanks.
pub open spec fn trimmed(s: Seq<char>) -> Seq<char> {
    let a = skip_blank(s, 0);
    s.subrange(a, back_blank(s, a, s.len() as int))
}

pub proof fn lemma_find_from_bounds(s: Seq<char>, c: char, i: int)
    requires
        0 <= i <= s.len(),
    ensures
        i <= find_from(s, c, i) <= s.len(),
    decreases s.len() - i,
{
    if i < s.len() && s[i] != c {
        lemma_find_from_bounds(s, c, i + 1);
    }
}

/// The lines of a text.
pub open spec fn split_lines(s: Seq<char>) -> Seq<Seq<char>>
    decreases s.len(),
{
    let e = find_from(s, '\n', 0);
    proof {
        lemma_find_from_bounds(s, '\n', 0);
    }
    if e >= s.len() {
        seq![s]
    } else {
        seq![s.subrange(0, e)] + split_lines(s.subrange(e + 1, s.len() as int))
    }
}

/// The text of a quoted string value.
pub open spec fn quoted(v: Seq<char>) -> Option<Seq<char>> {
    if v.len() >= 2 && v[0] == '"' && v[v.len() - 1] == '"' {
        Some(v.subrange(1, v.len() - 1))
    } else {
        None
    }
}

/// The configuration after one line.
pub open spec fn line_effect(c: ConfigView, line: Seq<char>) -> Result<ConfigView, ConfigFileError> {
    let t = trimmed(line);
    if t.len() == 0 || t[0] == '#' {
        Ok(c)
    } else {
        let e = find_from(t, '=', 0);
        if e >= t.len() {
            Err(ConfigFileError::Malformed)
        } else {
            let key = trimmed(t.subrange(0, e));
            let value = trimmed(t.subrange(e + 1, t.len() as int));
            if key == "max_clients"@ {
                match parse_count(value) {
                    Some(n) => Ok(ConfigView { max_clients: n, ..c }),
                    None => Err(ConfigFileError::BadNumber),
                }
            } else if key == "socket"@ || key == "compositor"@ || key == "log_level"@ {
                match quoted(value) {
                    Some(q) => if key == "socket"@ {
                        Ok(ConfigView { bridge_display: q, ..c })
                    } else if key == "compositor"@ {
                        Ok(ConfigView { compositor_display: q, ..c })
                    } else {
                        Ok(ConfigView { log_level: Some(q), ..c })
                    },
                    None => Err(ConfigFileError::Malformed),
                }
            } else {
                Err(ConfigFileError::UnknownKey)
            }
        }
    }
}

/// The configuration after the lines, or the first line's error.
pub open spec fn apply_lines(c: ConfigView, lines: Seq<Seq<char>>) -> Result<ConfigView, ConfigFileError>
    decreases lines.len(),
{
    if lines.len() == 0 {
        Ok(c)
    } else {
        match line_effect(c, lines[0]) {
            Ok(c1) => apply_lines(c1, lines.drop_first()),
            Err(e) => Err(e),
        }
    }
}

fn find_char(s: &str, c: char, i: usize) -> (r: usize)
    requires
        i <= s@.len(),
    ensures
        r == find_from(s@, c, i as int),
    decreases s@.len() - i,
{
    if i >= s.unicode_len() {
        s.unicode_len()
    } else if s.get_char(i) == c {
        i
    } else {
        find_char(s, c, i + 1)
    }
}

fn skip_blanks(s: &str, i: usize) -> (r: usize)
    requires
        i <= s@.len(),
    ensures
        r == skip_blank(s@, i as int),
        i <= r <= s@.len(),
    decreases s@.len() - i,
{
    if i >= s.unicode_len() {
        s.unicode_len()
    } else {
        let c = s.get_char(i);
        if c == ' ' || c == '\t' || c == '\r' {
            skip_blanks(s, i + 1)
        } else {
            i
        }
    }
}

fn back_blanks(s: &str, lo: usize, j: usize) -> (r: usize)
    requires
        lo <= j <= s@.len(),
    ensures
        r == back_blank(s@, lo as int, j as int),
        lo <= r <= j,
    decreases j - lo,
{
    if j <= lo {
        lo
    } else {
        let c = s.get_char(j - 1);
        if c == ' ' || c == '\t' || c == '\r' {
            back_blanks(s, lo, j - 1)
        } else {
            j
        }
    }
}

fn trim(s: &str) -> (t: &str)
    ensures
        t@ == trimmed(s@),
{
    let n = s.unicode_len();
    let a = skip_blanks(s, 0);
    let b = back_blanks(s, a, n);
    s.substring_char(a, b)
}

fn apply_line(c: BridgeConfig, line: &str) -> (r: Result<BridgeConfig, ConfigFileError>)
    ensures
        match line_effect(config_view(c), line@) {
            Ok(v) => r matches Ok(rc) && config_view(rc) == v,
            Err(e) => r is Err && r->Err_0 == e,
        },
{
    let t = trim(line);
    let n = t.unicode_len();
    if n == 0 || t.get_char(0) == '#' {
        return Ok(c);
    }
    let e = find_char(t, '=', 0);
    proof {
        lemma_find_from_bounds(t@, '=', 0);
    }
    if e >= n {
        return Err(ConfigFileError::Malformed);
    }
    let key = trim(t.substring_char(0, e));
    let value = trim(t.substring_char(e + 1, n));
    let key_s = String::from_str(key);
    proof {
        reveal_strlit("max_clients");
        reveal_strlit("socket");
        reveal_strlit("compositor");
        reveal_strlit("log_level");
    }
    if key_s == String::from_str("max_clients") {
        return match parse_count_arg(value) {
            Some(k) => {
                let mut c = c;
                c.max_clients = k;
                Ok(c)
            },
            None => Err(ConfigFileError::BadNumber),
        };
    }
    let is_socket = key_s == String::from_str("socket");
    let is_compositor = key_s == String::from_str("compositor");
    let is_log = key_s == String::from_str("log_level");
    if !(is_socket || is_compositor || is_log) {
        return Err(ConfigFileError::UnknownKey);
    }
    let m = value.unicode_len();
    if m < 2 || value.get_char(0) != '"' || value.get_char(m - 1) != '"' {
        return Err(ConfigFileError::Malformed);
    }
    let q = String::from_str(value.substring_char(1, m - 1));
    let mut c = c;
    if is_socket {
        c.bridge_display = q;
    } else if is_compositor {
        c.compositor_display = q;
    } else {
        c.log_level = Some(q);
    }
    Ok(c)
}

/// Applies the configuration file `text` to `base`, line by line.
pub fn apply_config_text(base: BridgeConfig, text: &str) -> (r: Result<BridgeConfig, ConfigFileError>)
    ensures
        match apply_lines(config_view(base), split_lines(text@)) {
            Ok(v) => r matches Ok(c) && config_view(c) == v,
            Err(e) => r is Err && r->Err_0 == e,
        },
{
    let mut c = base;
    let mut rest: &str = text;
    loop
        invariant
            apply_lines(config_view(c), split_lines(rest@)) == apply_lines(
                config_view(base),
                split_lines(text@),
            ),
        decreases rest@.len(),
    {
        let n = rest.unicode_len();
        let e = find_char(rest, '\n', 0);
        proof {
            lemma_find_from_bounds(rest@, '\n', 0);
        }
        let line = rest.substring_char(0, e);
        let ghost lines = split_lines(rest@);
        proof {
            assert(lines[0] == line@);
        }
        let ghost prev = config_view(c);
        match apply_line(c, line) {
            Ok(c1) => {
                c = c1;
                proof {
                    assert(line_effect(prev, lines[0]) == Ok::<ConfigView, ConfigFileError>(config_view(c)));
                    assert(apply_lines(prev, lines) == apply_lines(config_view(c), lines.drop_first()));
                }
            },
            Err(err) => {
                return Err(err);
            },
        }
        if e >= n {
            proof {
                assert(lines.drop_first() =~= Seq::<Seq<char>>::empty());
                assert(apply_lines(config_view(c), lines.drop_first()) == Ok::<ConfigView, ConfigFileError>(config_view(c)));
            }
            return Ok(c);
        }
        let next = rest.substring_char(e + 1, n);
        proof {
            assert(lines.drop_first() =~= split_lines(next@));
        }
        rest = next;
    }
}

proof fn lemma_find_before(k: Seq<char>, rest: Seq<char>, c: char, i: int)
    requires
        0 <= i <= k.len(),
        forall|j: int| 0 <= j < k.len() ==> k[j] != c,
        rest.len() > 0,
        rest[0] == c,
    ensures
        find_from(k + rest, c, i) == k.len(),
    decreases k.len() - i,
{
    let s = k + rest;
    if i < k.len() {
        assert(s[i] == k[i]);
        lemma_find_before(k, rest, c, i + 1);
    } else {
        assert(s[i] == rest[0]);
    }
}

proof fn lemma_trimmed_unblanked(s: Seq<char>)
    requires
        s.len() > 0,
        !is_blank(s[0]),
        !is_blank(s.last()),
    ensures
        trimmed(s) == s,
{
    assert(skip_blank(s, 0) == 0);
    assert(back_blank(s, 0, s.len() as int) == s.len());
    assert(s.subrange(0, s.len() as int) =~= s);
}

/// The parts of the line `k=v`, for a key and a value without blanks at
/// their ends and a key without `=`: the line is its own trimmed text, its
/// first `=` ends the key, and the trimmed texts before and after it are
/// `k` and `v`.
proof fn lemma_line_parts(k: Seq<char>, v: Seq<char>)
    requires
        k.len() > 0,
        !is_blank(k[0]),
        !is_blank(k.last()),
        forall|j: int| 0 <= j < k.len() ==> k[j] != '=',
        v.len() > 0,
        !is_blank(v[0]),
        !is_blank(v.last()),
    ensures
        ({
            let l = k + "="@ + v;
            &&& trimmed(l) == l
            &&& find_from(l, '=', 0) == k.len()
            &&& trimmed(l.subrange(0, k.len() as int)) == k
            &&& trimmed(l.subrange(k.len() as int + 1, l.len() as int)) == v
        }),
{
    reveal_strlit("=");
    let l = k + "="@ + v;
    assert(l[0] == k[0]);
    assert(l.last() == v.last());
    lemma_trimmed_unblanked(l);
    assert(l =~= k + ("="@ + v));
    lemma_find_before(k, "="@ + v, '=', 0);
    assert(l.subrange(0, k.len() as int) =~= k);
    lemma_trimmed_unblanked(k);
    assert(l.subrange(k.len() as int + 1, l.len() as int) =~= v);
    lemma_trimmed_unblanked(v);
}

/// Blanks around a line's `=` do not matter: `key=value` and
/// `key = value` set the same thing, or are refused alike.
pub proof fn lemma_blanks_around_equals(c: ConfigView, k: Seq<char>, v: Seq<char>)
    requires
        k.len() > 0,
        !is_blank(k[0]),
        !is_blank(k.last()),
        forall|j: int| 0 <= j < k.len() ==> k[j] != '=',
        v.len() > 0,
        !is_blank(v[0]),
        !is_blank(v.last()),
    ensures
        line_effect(c, k + "="@ + v) == line_effect(c, k + " = "@ + v),
{
    reveal_strlit("=");
    reveal_strlit(" = ");
    reveal_strlit(" ");
    lemma_line_parts(k, v);
    let l = k + " = "@ + v;
    let k2 = k + " "@;
    assert(l[0] == k[0]);
    assert(l.last() == v.last());
    lemma_trimmed_unblanked(l);
    assert(l =~= k2 + ("="@ + (" "@ + v)));
    assert forall|j: int| 0 <= j < k2.len() implies k2[j] != '=' by {
        if j < k.len() {
            assert(k2[j] == k[j]);
        }
    }
    lemma_find_before(k2, "="@ + (" "@ + v), '=', 0);
    // the key: `k` and a blank
    assert(l.subrange(0, k2.len() as int) =~= k2);
    assert(skip_blank(k2, 0) == 0);
    assert(back_blank(k2, 0, k.len() as int) == k.len());
    assert(back_blank(k2, 0, k2.len() as int) == k.len());
    assert(k2.subrange(0, k.len() as int) =~= k);
    // the value: a blank and `v`
    let v2 = " "@ + v;
    assert(l.subrange(k2.len() as int + 1, l.len() as int) =~= v2);
    assert(skip_blank(v2, 1) == 1);
    assert(skip_blank(v2, 0) == 1);
    assert(back_blank(v2, 1, v2.len() as int) == v2.len());
    assert(v2.subrange(1, v2.len() as int) =~= v);
}

/// A `socket` line sets the bridge's socket to the text between the quotes,
/// whatever that text is, with or without blanks around `=`.
pub proof fn lemma_socket_line(c: ConfigView, q: Seq<char>)
    ensures
        line_effect(c, "socket"@ + "="@ + ("\""@ + q + "\""@)) == Ok::<ConfigView, ConfigFileError>(
            ConfigView { bridge_display: q, ..c },
        ),
        line_effect(c, "socket"@ + " = "@ + ("\""@ + q + "\""@)) == Ok::<ConfigView, ConfigFileError>(
            ConfigView { bridge_display: q, ..c },
        ),
{
    reveal_strlit("socket");
    reveal_strlit("\"");
    let k = "socket"@;
    let v = "\""@ + q + "\""@;
    assert(v[0] == '"');
    assert(v.last() == '"');
    lemma_line_parts(k, v);
    lemma_blanks_around_equals(c, k, v);
    assert(v.subrange(1, v.len() - 1) =~= q);
    assert(quoted(v) == Some(q));
    reveal_strlit("max_clients");
    assert(k != "max_clients"@) by {
        assert(k.len() != "max_clients"@.len());
    }
}

} // verus!
