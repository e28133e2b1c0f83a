//! Helpers for file names.
use vstd::prelude::*;

use vstd::string::StrSliceExecFns;

use crate::text::{chars_of, push_char, string_of};

verus! {

broadcast use vstd::string::group_string_axioms;

/// Whether a character is alphabetic or numeric, as `char::is_alphanumeric`
/// tells.
pub uninterp spec fn alphanumeric(c: char) -> bool;

/// Relies on `char::is_alphanumeric`.
#[verifier::external_body]
fn is_alphanumeric(c: char) -> (r: bool)
    ensures
        r == alphanumeric(c),
{
    c.is_alphanumeric()
}

/// Punctuation a file name keeps.
pub open spec fn kept_punctuation(c: char) -> bool {
    c == ' ' || c == '-' || c == '_' || c == '.' || c == '(' || c == ')' || c == '[' || c == ']' || c == '{' || c == '}' || c == '!' || c == '\'' || c == '\u{2019}' || c == '\u{b0}' || c == '#' || c == '&' || c == '$' || c == '^' || c == '@'
}

/// Double quotes become single quotes.
pub open spec fn unquoted(s: Seq<char>) -> Seq<char> {
    s.map_values(|c: char| if c == '"' { '\'' } else { c })
}

/// Each `": "` becomes `" - "`, scanning from the left.
pub open spec fn uncoloned(s: Seq<char>) -> Seq<char>
    decreases s.len(),
{
    if s.len() == 0 {
        s
    } else if s.len() >= 2 && s[0] == ':' && s[1] == ' ' {
        seq![' ', '-', ' '] + uncoloned(s.skip(2))
    } else {
        seq![s[0]] + uncoloned(s.skip(1))
    }
}

/// A file name without the characters file systems or shells mishandle.
pub open spec fn sanitized(s: Seq<char>) -> Seq<char> {
    uncoloned(unquoted(s)).map_values(|c: char| if alphanumeric(c) || kept_punctuation(c) { c } else { '_' })
}

/// Makes a title usable as a file name.
pub fn sanitize_filename(filename: &str) -> (r: String)
    ensures
        r@ == sanitized(filename@),
{
    let cs = chars_of(filename);
    let ghost u = unquoted(filename@);
    let mut q: Vec<char> = Vec::new();
    let mut i: usize = 0;
    while i < cs.len()
        invariant
            i <= cs@.len(),
            cs@ == filename@,
            q@ == u.take(i as int),
            u == unquoted(filename@),
        decreases cs.len() - i,
    {
        let c = if cs[i] == '"' {
            '\''
        } else {
            cs[i]
        };
        q.push(c);
        assert(u.take(i + 1) == u.take(i as int).push(u[i as int]));
        i = i + 1;
    }
    assert(u.take(u.len() as int) == u);
    let ghost w = uncoloned(u);
    let mut out: Vec<char> = Vec::new();
    let mut i: usize = 0;
    assert(u.skip(0) == u);
    while i < q.len()
        invariant
            i <= q@.len(),
            q@ == u,
            w == uncoloned(u),
            out@ + uncoloned(u.skip(i as int)) == w,
        decreases q.len() - i,
    {
        if i + 1 < q.len() && q[i] == ':' && q[i + 1] == ' ' {
            assert(u.skip(i as int).skip(2) == u.skip(i + 2));
            out.push(' ');
            out.push('-');
            out.push(' ');
            assert(out@ + uncoloned(u.skip(i + 2)) =~= w);
            i = i + 2;
        } else {
            assert(u.skip(i as int).skip(1) == u.skip(i + 1));
            out.push(q[i]);
            assert(out@ + uncoloned(u.skip(i + 1)) =~= w);
            i = i + 1;
        }
    }
    assert(u.skip(q@.len() as int).len() == 0);
    assert(out@ =~= w);
    let mut r = String::new();
    let mut i: usize = 0;
    while i < out.len()
        invariant
            i <= out@.len(),
            out@ == w,
            r@ == w.take(i as int).map_values(|c: char| if alphanumeric(c) || kept_punctuation(c) { c } else { '_' }),
        decreases out.len() - i,
    {
        let c = out[i];
        let keep = is_alphanumeric(c) || c == ' ' || c == '-' || c == '_' || c == '.' || c == '(' || c == ')' || c == '[' || c == ']' || c == '{' || c == '}' || c == '!' || c == '\'' || c == '\u{2019}' || c == '\u{b0}' || c == '#' || c == '&' || c == '$' || c == '^' || c == '@';
        push_char(&mut r, if keep { c } else { '_' });
        assert(w.take(i + 1).map_values(|c: char| if alphanumeric(c) || kept_punctuation(c) { c } else { '_' }) =~= w.take(i as int).map_values(|c: char| if alphanumeric(c) || kept_punctuation(c) { c } else { '_' }).push(if keep { c } else { '_' }));
        i = i + 1;
    }
    assert(w.take(w.len() as int) == w);
    r
}

/// Where the leading run of alphanumeric characters of `s` ends.
pub open spec fn alnum_run(s: Seq<char>, i: int) -> bool {
    0 <= i <= s.len() && (forall|j: int| 0 <= j < i ==> alphanumeric(#[trigger] s[j])) && (i == s.len() || !alphanumeric(s[i]))
}

/// A downloaded file's name `<date>---<name>`: the date, a run of letters and
/// digits, and the name, not empty and on one line.
pub open spec fn dated_name(s: Seq<char>) -> Option<(Seq<char>, Seq<char>)> {
    if exists|i: int| alnum_run(s, i) && i > 0 && i + 3 < s.len() && s[i] == '-' && s[i + 1] == '-' && s[i + 2] == '-'
        && forall|j: int| i + 3 <= j < s.len() ==> #[trigger] s[j] != '\n' {
        let i = choose|i: int| alnum_run(s, i) && i > 0 && i + 3 < s.len() && s[i] == '-' && s[i + 1] == '-' && s[i + 2] == '-'
            && forall|j: int| i + 3 <= j < s.len() ==> #[trigger] s[j] != '\n';
        Some((s.take(i), s.skip(i + 3)))
    } else {
        None
    }
}

/// Splits a downloaded file's name into its upload date and its final name.
pub fn split_upload_date(filename: &str) -> (r: Option<(String, String)>)
    ensures
        match dated_name(filename@) {
            Some((d, n)) => r matches Some((a, b)) && a@ == d && b@ == n,
            None => r is None,
        },
{
    let cs = chars_of(filename);
    let ghost s = filename@;
    let mut i: usize = 0;
    while i < cs.len() && is_alphanumeric(cs[i])
        invariant
            i <= cs@.len(),
            cs@ == s,
            forall|j: int| 0 <= j < i ==> alphanumeric(#[trigger] s[j]),
        decreases cs.len() - i,
    {
        i = i + 1;
    }
    assert(alnum_run(s, i as int));
    assert forall|k: int| alnum_run(s, k) implies k == i by {
        if k < i {
            assert(alphanumeric(s[k]));
        } else if k > i {
            assert(alphanumeric(s[i as int]));
        }
    }
    if i == 0 || cs.len() - i <= 3 || cs[i] != '-' || cs[i + 1] != '-' || cs[i + 2] != '-' {
        assert(dated_name(s) is None);
        return None;
    }
    let mut j: usize = i + 3;
    while j < cs.len()
        invariant
            i + 3 <= j <= cs@.len(),
            cs@ == s,
            s == filename@,
            forall|k: int| alnum_run(s, k) ==> k == i,
            forall|k: int| i + 3 <= k < j ==> #[trigger] s[k] != '\n',
        decreases cs.len() - j,
    {
        if cs[j] == '\n' {
            assert(dated_name(s) is None) by {
                assert(s[j as int] == '\n');
            }
            return None;
        }
        j = j + 1;
    }
    let date = string_of(cs.as_slice(), 0, i);
    let name = string_of(cs.as_slice(), i + 3, cs.len());
    assert(s.subrange(0, i as int) == s.take(i as int));
    assert(s.subrange(i + 3, s.len() as int) == s.skip(i + 3));
    assert(alnum_run(s, i as int) && i > 0 && i + 3 < s.len() && s[i as int] == '-' && s[i + 1] == '-' && s[i + 2] == '-'
        && forall|k: int| i + 3 <= k < s.len() ==> #[trigger] s[k] != '\n');
    Some((date, name))
}

/// The columns a character takes in a terminal, if it is printable.
pub uninterp spec fn char_width_of(c: char) -> Option<nat>;

/// Relies on `unicode_width::UnicodeWidthChar::width`.
#[verifier::external_body]
fn char_width(c: char) -> (r: Option<usize>)
    ensures
        match r {
            Some(w) => char_width_of(c) == Some(w as nat),
            None => char_width_of(c) is None,
        },
{
    unicode_width::UnicodeWidthChar::width(c)
}

pub open spec fn cols_of(c: char) -> int {
    match char_width_of(c) {
        Some(w) => w as int,
        None => 0,
    }
}

/// Scanning a text for a width budget: the characters kept, the columns they
/// take, whether an escape sequence is open, and whether the budget ran out.
/// Escape sequences (`ESC` up to `m`) take no columns.
pub open spec fn width_scan(s: Seq<char>, max: int) -> (int, int, bool, bool)
    decreases s.len(),
{
    if s.len() == 0 {
        (0, 0, false, false)
    } else {
        let (n, cols, esc, stop) = width_scan(s.drop_last(), max);
        let c = s.last();
        if stop {
            (n, cols, esc, stop)
        } else if c == '\u{1b}' {
            (n + 1, cols, true, false)
        } else if esc {
            (n + 1, cols, c != 'm', false)
        } else if cols + cols_of(c) > max {
            (n, cols, esc, true)
        } else {
            (n + 1, cols + cols_of(c), false, false)
        }
    }
}

/// The longest prefix of `input` that takes at most `max_width` columns,
/// escape sequences kept whole; `None` if the text ends inside an escape
/// sequence.
pub fn ansi_strip(input: &str, max_width: usize) -> (r: Option<&str>)
    ensures
        width_scan(input@, max_width as int).2 ==> r is None,
        !width_scan(input@, max_width as int).2 ==> (r matches Some(p) && p@ == input@.take(width_scan(input@, max_width as int).0)),
{
    let ghost s = input@;
    let mut n: usize = 0;
    let mut cols: usize = 0;
    let mut esc = false;
    let mut stop = false;
    let total = input.unicode_len();
    assert(s.take(0) =~= seq![]);
    for c in it: input.chars()
        invariant
            it.seq() == s,
            s == input@,
            total == s.len(),
            (n as int, cols as int, esc, stop) == width_scan(s.take(it.index() as int), max_width as int),
            n <= it.index(),
            cols <= max_width,
    {
        let ghost i = it.index();
        assert(i < s.len());
        assert(s.take(i + 1).drop_last() == s.take(i as int));
        assert(s.take(i + 1).last() == c);
        if stop {
        } else if c == '\u{1b}' {
            n = n + 1;
            esc = true;
        } else if esc {
            n = n + 1;
            esc = c != 'm';
        } else {
            let w = match char_width(c) {
                Some(w) => w,
                None => 0,
            };
            if w > max_width - cols {
                stop = true;
            } else {
                n = n + 1;
                cols = cols + w;
            }
        }
    }
    assert(s.take(s.len() as int) == s);
    if esc {
        None
    } else {
        Some(input.substring_char(0, n))
    }
}

} // verus!
