//! The blacklist store: `(source, item id)` pairs that are never retried.
//!
//! A blacklist file holds one `source/id` entry per line. Blank lines and
//! lines starting with `#` are skipped; the whole content is trimmed first.
use vstd::prelude::*;

use crate::text::{
    chars_of, is_white_space, lemma_split_append, lemma_split_on_nonempty, lemma_trim_start_concat,
    lemma_trim_start_last, push_char, split_chars, split_on, str_eq, string_of, trim, trim_bounds, trim_end,
    trim_start,
};

verus! {

broadcast use vstd::string::group_string_axioms;

/// Why a single blacklist line could not be decoded.
#[derive(Clone, Copy, Debug, PartialEq, Eq, Structural)]
pub enum EntryError {
    /// The line holds no `/`, so the item id is missing.
    MissingVideoId,
    /// The line holds more than one `/`.
    TooManySegments,
}

/// A line of a blacklist that could not be decoded, numbered from 1 in the
/// trimmed content.
#[derive(Clone, Copy, Debug, PartialEq, Eq, Structural)]
pub struct BlacklistError {
    pub line: usize,
    pub cause: EntryError,
}

/// One blacklisted item: its source key and its id.
#[derive(Debug)]
pub struct BlacklistEntry {
    pub ie_key: String,
    pub video_id: String,
}

impl View for BlacklistEntry {
    type V = (Seq<char>, Seq<char>);

    open spec fn view(&self) -> (Seq<char>, Seq<char>) {
        (self.ie_key@, self.video_id@)
    }
}

/// The entries of a blacklist, in the order of their lines.
#[derive(Debug)]
pub struct Blacklist(pub Vec<BlacklistEntry>);

impl View for Blacklist {
    type V = Seq<(Seq<char>, Seq<char>)>;

    open spec fn view(&self) -> Seq<(Seq<char>, Seq<char>)> {
        self.0@.map_values(|e: BlacklistEntry| e@)
    }
}

pub open spec fn slash_free(s: Seq<char>) -> bool {
    forall|i: int| 0 <= i < s.len() ==> s[i] != '/'
}

/// `line` holds exactly one `/`, at `p`.
pub open spec fn single_slash_at(line: Seq<char>, p: int) -> bool {
    &&& 0 <= p < line.len()
    &&& line[p] == '/'
    &&& slash_free(line.take(p))
    &&& slash_free(line.skip(p + 1))
}

/// What a non-skipped line decodes to: the text before and after its only `/`.
pub open spec fn entry_of_line(line: Seq<char>) -> Result<(Seq<char>, Seq<char>), EntryError> {
    if exists|p: int| single_slash_at(line, p) {
        let p = choose|p: int| single_slash_at(line, p);
        Ok((line.take(p), line.skip(p + 1)))
    } else if slash_free(line) {
        Err(EntryError::MissingVideoId)
    } else {
        Err(EntryError::TooManySegments)
    }
}

/// Blank lines and comments are not entries.
pub open spec fn skipped_line(line: Seq<char>) -> bool {
    line.len() == 0 || line[0] == '#'
}

pub open spec fn strip_cr(line: Seq<char>) -> Seq<char> {
    if line.len() > 0 && line.last() == '\r' {
        line.drop_last()
    } else {
        line
    }
}

/// The lines of the trimmed content, as `str::lines` yields them.
pub open spec fn content_lines(content: Seq<char>) -> Seq<Seq<char>> {
    let t = trim(content);
    if t.len() == 0 {
        seq![]
    } else {
        split_on(t, '\n').map_values(|l: Seq<char>| strip_cr(l))
    }
}

/// Decoding a sequence of lines: the entries of the non-skipped ones, or the
/// first line (numbered from 1) that fails.
pub open spec fn decode_lines(ls: Seq<Seq<char>>) -> Result<Seq<(Seq<char>, Seq<char>)>, (int, EntryError)>
    decreases ls.len(),
{
    if ls.len() == 0 {
        Ok(seq![])
    } else {
        match decode_lines(ls.drop_last()) {
            Err(e) => Err(e),
            Ok(v) => if skipped_line(ls.last()) {
                Ok(v)
            } else {
                match entry_of_line(ls.last()) {
                    Ok(en) => Ok(v.push(en)),
                    Err(k) => Err((ls.len() as int, k)),
                }
            },
        }
    }
}

/// What a blacklist file's content decodes to.
pub open spec fn decoded(content: Seq<char>) -> Result<Seq<(Seq<char>, Seq<char>)>, (int, EntryError)> {
    decode_lines(content_lines(content))
}

pub proof fn lemma_decode_error_persists(ls: Seq<Seq<char>>, i: int)
    requires
        0 <= i <= ls.len(),
        decode_lines(ls.take(i)) is Err,
    ensures
        decode_lines(ls) == decode_lines(ls.take(i)),
    decreases ls.len() - i,
{
    if i < ls.len() {
        assert(ls.take(i + 1).drop_last() == ls.take(i));
        lemma_decode_error_persists(ls, i + 1);
    } else {
        assert(ls.take(i) == ls);
    }
}

/// Decodes the line `line[..end]`.
fn decode_entry_chars(line: &[char], end: usize) -> (r: Result<BlacklistEntry, EntryError>)
    requires
        end <= line@.len(),
    ensures
        match r {
            Ok(e) => entry_of_line(line@.take(end as int)) == Ok::<_, EntryError>(e@),
            Err(k) => entry_of_line(line@.take(end as int)) == Err::<(Seq<char>, Seq<char>), _>(k),
        },
{
    let ghost s = line@.take(end as int);
    let mut p: usize = 0;
    while p < end && line[p] != '/'
        invariant
            p <= end <= line@.len(),
            s == line@.take(end as int),
            forall|j: int| 0 <= j < p ==> s[j] != '/',
        decreases end - p,
    {
        p = p + 1;
    }
    if p == end {
        assert(slash_free(s));
        assert(forall|q: int| !single_slash_at(s, q));
        return Err(EntryError::MissingVideoId);
    }
    let mut q: usize = p + 1;
    while q < end && line[q] != '/'
        invariant
            p < q <= end <= line@.len(),
            s == line@.take(end as int),
            forall|j: int| p < j < q ==> s[j] != '/',
        decreases end - q,
    {
        q = q + 1;
    }
    if q < end {
        assert forall|x: int| !single_slash_at(s, x) by {
            if single_slash_at(s, x) {
                if x < p {
                } else if x == p {
                    assert(s.skip(p + 1)[q - p - 1] == '/');
                } else {
                    assert(s.take(x)[p as int] == '/');
                }
            }
        }
        assert(s[p as int] == '/');
        return Err(EntryError::TooManySegments);
    }
    assert(single_slash_at(s, p as int));
    assert forall|x: int| single_slash_at(s, x) implies x == p by {
        if x > p {
            assert(s.take(x)[p as int] == '/');
        }
    }
    let ie_key = string_of(line, 0, p);
    let video_id = string_of(line, p + 1, end);
    assert(ie_key@ == s.take(p as int));
    assert(video_id@ == s.skip(p + 1));
    Ok(BlacklistEntry { ie_key, video_id })
}

impl BlacklistEntry {
    pub fn new(ie_key: String, video_id: String) -> (r: Self)
        ensures
            r.ie_key == ie_key,
            r.video_id == video_id,
    {
        BlacklistEntry { ie_key, video_id }
    }

    /// Decodes one `source/id` line.
    pub fn decode(line: &str) -> (r: Result<Self, EntryError>)
        ensures
            match r {
                Ok(e) => entry_of_line(line@) == Ok::<_, EntryError>(e@),
                Err(k) => entry_of_line(line@) == Err::<(Seq<char>, Seq<char>), _>(k),
            },
    {
        let cs = chars_of(line);
        assert(cs@.take(cs@.len() as int) == cs@);
        decode_entry_chars(cs.as_slice(), cs.len())
    }

    /// The line that records this entry in a blacklist file.
    pub fn encode(&self) -> (r: String)
        ensures
            r@ == self.ie_key@ + seq!['/'] + self.video_id@,
    {
        let mut r = self.ie_key.clone();
        push_char(&mut r, '/');
        let id = chars_of(self.video_id.as_str());
        let mut i: usize = 0;
        while i < id.len()
            invariant
                i <= id@.len(),
                id@ == self.video_id@,
                r@ == self.ie_key@ + seq!['/'] + id@.take(i as int),
            decreases id.len() - i,
        {
            push_char(&mut r, id[i]);
            assert(id@.take(i + 1) == id@.take(i as int).push(id@[i as int]));
            i = i + 1;
        }
        assert(id@.take(id@.len() as int) == id@);
        r
    }
}

impl Blacklist {
    pub fn empty() -> (r: Self)
        ensures
            r@ == Seq::<(Seq<char>, Seq<char>)>::empty(),
    {
        Blacklist(Vec::new())
    }

    pub fn new(entries: Vec<BlacklistEntry>) -> (r: Self)
        ensures
            r.0 == entries,
    {
        Blacklist(entries)
    }

    /// Decodes a blacklist file's content.
    pub fn decode(content: &str) -> (r: Result<Self, BlacklistError>)
        ensures
            match r {
                Ok(b) => decoded(content@) == Ok::<_, (int, EntryError)>(b@),
                Err(e) => decoded(content@) == Err::<Seq<(Seq<char>, Seq<char>)>, _>(
                    (e.line as int, e.cause),
                ),
            },
    {
        let cs = chars_of(content);
        let (a, b) = trim_bounds(cs.as_slice());
        let mut entries: Vec<BlacklistEntry> = Vec::new();
        assert(entries@.map_values(|e: BlacklistEntry| e@) =~= seq![]);
        if a == b {
            return Ok(Blacklist(entries));
        }
        let lines = split_chars(cs.as_slice(), a, b, '\n');
        let ghost ls = content_lines(content@);
        assert(ls == lines@.map_values(|v: Vec<char>| v@).map_values(|l: Seq<char>| strip_cr(l)));
        let mut i: usize = 0;
        assert(ls.take(0) =~= seq![]);
        while i < lines.len()
            invariant
                i <= lines@.len() == ls.len(),
                ls == content_lines(content@),
                ls == lines@.map_values(|v: Vec<char>| v@).map_values(|l: Seq<char>| strip_cr(l)),
                decode_lines(ls.take(i as int)) == Ok::<_, (int, EntryError)>(
                    entries@.map_values(|e: BlacklistEntry| e@),
                ),
            decreases lines.len() - i,
        {
            let line = &lines[i];
            let len = line.len();
            let end = if len > 0 && line[len - 1] == '\r' {
                len - 1
            } else {
                len
            };
            assert(line@.take(end as int) == ls[i as int]);
            assert(ls.take(i + 1).drop_last() == ls.take(i as int));
            assert(ls.take(i + 1).last() == ls[i as int]);
            if end == 0 || line[0] == '#' {
            } else {
                match decode_entry_chars(line.as_slice(), end) {
                    Ok(e) => {
                        let ghost prev = entries@.map_values(|e: BlacklistEntry| e@);
                        let ghost ev = e@;
                        entries.push(e);
                        assert(entries@.map_values(|e: BlacklistEntry| e@) == prev.push(ev));
                    },
                    Err(k) => {
                        proof {
                            assert(!skipped_line(ls[i as int]));
                            assert(decode_lines(ls.take(i + 1)) == Err::<
                                Seq<(Seq<char>, Seq<char>)>,
                                _,
                            >(((i + 1) as int, k)));
                            lemma_decode_error_persists(ls, i + 1);
                        }
                        return Err(BlacklistError { line: i + 1, cause: k });
                    },
                }
            }
            i = i + 1;
        }
        assert(ls.take(ls.len() as int) == ls);
        Ok(Blacklist(entries))
    }

    /// Whether `(ie_key, video_id)` is one of the entries.
    pub fn is_blacklisted(&self, ie_key: &str, video_id: &str) -> (r: bool)
        ensures
            r == self@.contains((ie_key@, video_id@)),
    {
        let mut i: usize = 0;
        while i < self.0.len()
            invariant
                i <= self.0@.len(),
                forall|j: int| 0 <= j < i ==> self@[j] != (ie_key@, video_id@),
            decreases self.0.len() - i,
        {
            let e = &self.0[i];
            if str_eq(e.ie_key.as_str(), ie_key) && str_eq(e.video_id.as_str(), video_id) {
                assert(self@[i as int] == (ie_key@, video_id@));
                return true;
            }
            i = i + 1;
        }
        false
    }
}

/// A blacklist file that could not be decoded: its position among the files
/// given, and the line at fault.
#[derive(Clone, Copy, Debug, PartialEq, Eq, Structural)]
pub struct LoadError {
    pub file: usize,
    pub error: BlacklistError,
}

/// Merging several optional blacklist files, a missing one counting as empty:
/// their entries one file after another, or the first file that fails.
pub open spec fn merged(files: Seq<Option<String>>) -> Result<
    Seq<(Seq<char>, Seq<char>)>,
    (int, (int, EntryError)),
>
    decreases files.len(),
{
    if files.len() == 0 {
        Ok(seq![])
    } else {
        match merged(files.drop_last()) {
            Err(e) => Err(e),
            Ok(v) => match files.last() {
                None => Ok(v),
                Some(c) => match decoded(c@) {
                    Ok(w) => Ok(v + w),
                    Err(e) => Err((files.len() - 1, e)),
                },
            },
        }
    }
}

pub proof fn lemma_merge_error_persists(files: Seq<Option<String>>, i: int)
    requires
        0 <= i <= files.len(),
        merged(files.take(i)) is Err,
    ensures
        merged(files) == merged(files.take(i)),
    decreases files.len() - i,
{
    if i < files.len() {
        assert(files.take(i + 1).drop_last() == files.take(i));
        lemma_merge_error_persists(files, i + 1);
    } else {
        assert(files.take(i) == files);
    }
}

/// Merges the contents of several blacklist files; `None` stands for a file
/// that does not exist.
pub fn load_optional_blacklists(files: &Vec<Option<String>>) -> (r: Result<Blacklist, LoadError>)
    ensures
        match r {
            Ok(b) => merged(files@) == Ok::<_, (int, (int, EntryError))>(b@),
            Err(e) => merged(files@) == Err::<Seq<(Seq<char>, Seq<char>)>, _>(
                (e.file as int, (e.error.line as int, e.error.cause)),
            ),
        },
{
    let mut entries: Vec<BlacklistEntry> = Vec::new();
    let mut i: usize = 0;
    assert(files@.take(0) =~= seq![]);
    assert(entries@.map_values(|e: BlacklistEntry| e@) =~= seq![]);
    while i < files.len()
        invariant
            i <= files@.len(),
            merged(files@.take(i as int)) == Ok::<_, (int, (int, EntryError))>(
                entries@.map_values(|e: BlacklistEntry| e@),
            ),
        decreases files.len() - i,
    {
        assert(files@.take(i + 1).drop_last() == files@.take(i as int));
        assert(files@.take(i + 1).last() == files@[i as int]);
        match &files[i] {
            None => {},
            Some(content) => match Blacklist::decode(content.as_str()) {
                Ok(b) => {
                    let ghost prev = entries@.map_values(|e: BlacklistEntry| e@);
                    let mut more = b.0;
                    let ghost added = more@.map_values(|e: BlacklistEntry| e@);
                    entries.append(&mut more);
                    assert(entries@.map_values(|e: BlacklistEntry| e@) =~= prev + added);
                },
                Err(e) => {
                    proof {
                        lemma_merge_error_persists(files@, i + 1);
                    }
                    return Err(LoadError { file: i, error: e });
                },
            },
        }
        i = i + 1;
    }
    assert(files@.take(files@.len() as int) == files@);
    Ok(Blacklist(entries))
}

/// A key or id that a blacklist line can carry unchanged: no white space and
/// no `/`.
pub open spec fn plain_field(s: Seq<char>) -> bool {
    forall|i: int| 0 <= i < s.len() ==> !is_white_space(#[trigger] s[i]) && s[i] != '/'
}

proof fn lemma_line_decodes(key: Seq<char>, id: Seq<char>)
    requires
        plain_field(key),
        plain_field(id),
    ensures
        entry_of_line(key + seq!['/'] + id) == Ok::<_, EntryError>((key, id)),
{
    let l = key + seq!['/'] + id;
    let p = key.len() as int;
    assert(l.take(p) =~= key);
    assert(l.skip(p + 1) =~= id);
    assert(single_slash_at(l, p));
    assert forall|x: int| single_slash_at(l, x) implies x == p by {
        if x < p {
            assert(l[x] == key[x]);
        } else if x > p {
            assert(l.take(x)[p] == '/');
        }
    }
}

/// Appending an entry's line to a blacklist file, as `encode` writes it and
/// followed by a newline, to a content that is empty or ends with a newline,
/// records it: decoding the result either fails on some other line or lists
/// the entry. The key and id hold no white space and no `/`, and the key does
/// not start with `#`.
pub proof fn lemma_appended_entry_is_listed(c: Seq<char>, key: Seq<char>, id: Seq<char>)
    requires
        plain_field(key),
        plain_field(id),
        key.len() == 0 || key[0] != '#',
        c.len() == 0 || c.last() == '\n',
    ensures
        decoded(c + (key + seq!['/'] + id) + seq!['\n']) matches Ok(v) ==> v.contains((key, id)),
{
    let l = key + seq!['/'] + id;
    let s = c + l + seq!['\n'];
    assert(l.len() > 0);
    assert(!is_white_space(l[0])) by {
        if key.len() > 0 {
            assert(l[0] == key[0]);
        } else {
            assert(l[0] == '/');
        }
    }
    assert(!is_white_space(l.last())) by {
        if id.len() > 0 {
            assert(l.last() == id.last());
        }
    }
    // Trimming leaves the leading white space of `c` out and the final newline.
    lemma_trim_start_concat(c, l + seq!['\n']);
    assert(s == c + (l + seq!['\n']));
    let c1 = trim_start(c);
    lemma_trim_start_last(c);
    let t = c1 + l;
    assert(trim_start(s) == t + seq!['\n']);
    assert((t + seq!['\n']).drop_last() == t);
    assert(t.last() == l.last());
    assert(trim_end(t) == t);
    assert(trim(s) == t);
    // Its last line is the appended one.
    assert forall|i: int| 0 <= i < l.len() implies l[i] != '\n' by {
        if i < key.len() {
            assert(l[i] == key[i]);
        } else if i > key.len() {
            assert(l[i] == id[i - key.len() - 1]);
        }
    }
    lemma_split_append(c1, l, '\n');
    lemma_split_on_nonempty(c1, '\n');
    if c1.len() > 0 {
        assert(c1.last() == '\n');
        assert(split_on(c1, '\n').last() == Seq::<char>::empty());
    } else {
        assert(split_on(c1, '\n') == seq![Seq::<char>::empty()]);
    }
    assert(split_on(t, '\n').last() =~= l);
    let ls = content_lines(s);
    assert(ls.len() == split_on(t, '\n').len());
    assert(ls.last() == strip_cr(l));
    assert(strip_cr(l) == l);
    assert(!skipped_line(l));
    lemma_line_decodes(key, id);
    if decoded(s) is Ok {
        let v = decoded(s)->Ok_0;
        assert(decode_lines(ls.drop_last()) is Ok);
        let w = decode_lines(ls.drop_last())->Ok_0;
        assert(v == w.push((key, id)));
        assert(v[v.len() - 1] == (key, id));
    }
}

/// The same through the merge of a directory's two blacklist files: with the
/// line appended to the first, a successful load lists the entry.
pub proof fn lemma_appended_entry_is_loaded(files: Seq<Option<String>>, c: Seq<char>, key: Seq<char>, id: Seq<char>)
    requires
        files.len() == 2,
        files[0] matches Some(a) && a@ == c + (key + seq!['/'] + id) + seq!['\n'],
        plain_field(key),
        plain_field(id),
        key.len() == 0 || key[0] != '#',
        c.len() == 0 || c.last() == '\n',
    ensures
        merged(files) matches Ok(v) ==> v.contains((key, id)),
{
    lemma_appended_entry_is_listed(c, key, id);
    let a = files[0]->Some_0;
    assert(files.drop_last().drop_last() =~= Seq::<Option<String>>::empty());
    assert(files.drop_last().last() == files[0]);
    let first = merged(files.drop_last());
    assert(merged(files.drop_last().drop_last()) == Ok::<_, (int, (int, EntryError))>(Seq::<(Seq<char>, Seq<char>)>::empty()));
    match decoded(a@) {
        Err(e) => {
            assert(first is Err);
        },
        Ok(d) => {
            assert(first == Ok::<_, (int, (int, EntryError))>(Seq::<(Seq<char>, Seq<char>)>::empty() + d));
            if merged(files) is Ok {
                let v = merged(files)->Ok_0;
                let i = choose|i: int| 0 <= i < d.len() && d[i] == (key, id);
                match files.last() {
                    None => {
                        assert(v == Seq::<(Seq<char>, Seq<char>)>::empty() + d);
                    },
                    Some(cc) => {
                        let w = decoded(cc@)->Ok_0;
                        assert(v == (Seq::<(Seq<char>, Seq<char>)>::empty() + d) + w);
                    },
                }
                assert(v[i] == (key, id));
            }
        },
    }
}

} // verus!
