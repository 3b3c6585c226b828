//! The whitelist store: the set of ckeys granted access.
//!
//! The durable form is a line-oriented text file: one entry per line,
//! with blank lines and lines whose first character is a comment marker
//! skipped on load, and a generated-file warning written at the top on
//! store.  Parsing and rendering of that format live here; reading and
//! writing the file itself is the embedding program's work.

use vstd::prelude::*;

use crate::ckey::{push_char, Ckey};

verus! {

/// A whitespace character, as Rust's char::is_whitespace classifies it.
pub open spec fn is_space_char(c: char) -> bool {
    let u = c as u32;
    (9 <= u && u <= 13) || u == 32 || u == 133 || u == 160 || u == 0x1680 || (0x2000 <= u
        && u <= 0x200a) || u == 0x2028 || u == 0x2029 || u == 0x202f || u == 0x205f || u == 0x3000
}

/// The string with its leading whitespace removed.
pub open spec fn trim_start_spec(s: Seq<char>) -> Seq<char>
    decreases s.len(),
{
    if s.len() > 0 && is_space_char(s[0]) {
        trim_start_spec(s.drop_first())
    } else {
        s
    }
}

/// The string with its trailing whitespace removed.
pub open spec fn trim_end_spec(s: Seq<char>) -> Seq<char>
    decreases s.len(),
{
    if s.len() > 0 && is_space_char(s.last()) {
        trim_end_spec(s.drop_last())
    } else {
        s
    }
}

/// The string with leading and trailing whitespace removed.
pub open spec fn trim_spec(s: Seq<char>) -> Seq<char> {
    trim_end_spec(trim_start_spec(s))
}

/// Trimming the front keeps exactly the tail after the first run of
/// whitespace.
proof fn lemma_trim_start_subrange(s: Seq<char>, k: int)
    requires
        0 <= k <= s.len(),
        forall|j: int| 0 <= j < k ==> is_space_char(#[trigger] s[j]),
        k == s.len() || !is_space_char(s[k]),
    ensures
        trim_start_spec(s) == s.subrange(k, s.len() as int),
    decreases s.len(),
{
    if k == 0 {
        assert(s.subrange(0, s.len() as int) =~= s);
    } else {
        assert(is_space_char(s[0]));
        let t = s.drop_first();
        assert(forall|j: int| 0 <= j < k - 1 ==> is_space_char(#[trigger] t[j]));
        lemma_trim_start_subrange(t, k - 1);
        assert(t.subrange(k - 1, t.len() as int) =~= s.subrange(k, s.len() as int));
    }
}

/// Trimming the back keeps exactly the head before the last run of
/// whitespace.
proof fn lemma_trim_end_subrange(s: Seq<char>, m: int)
    requires
        0 <= m <= s.len(),
        forall|j: int| m <= j < s.len() ==> is_space_char(#[trigger] s[j]),
        m == 0 || !is_space_char(s[m - 1]),
    ensures
        trim_end_spec(s) == s.subrange(0, m),
    decreases s.len(),
{
    if m == s.len() {
        assert(s.subrange(0, m) =~= s);
    } else {
        assert(is_space_char(s.last()));
        let t = s.drop_last();
        lemma_trim_end_subrange(t, m);
        assert(t.subrange(0, m) =~= s.subrange(0, m));
    }
}

/// Whether a character is whitespace.
fn is_space(c: char) -> (r: bool)
    ensures
        r == is_space_char(c),
{
    let u = c as u32;
    (9 <= u && u <= 13) || u == 32 || u == 133 || u == 160 || u == 0x1680 || (0x2000 <= u
        && u <= 0x200a) || u == 0x2028 || u == 0x2029 || u == 0x202f || u == 0x205f || u == 0x3000
}

/// The string with leading and trailing whitespace removed.
fn trim_str<'a>(s: &'a str) -> (r: &'a str)
    ensures
        r@ == trim_spec(s@),
{
    let n = s.unicode_len();
    let mut start: usize = 0;
    while start < n && is_space(s.get_char(start))
        invariant
            start <= n,
            n == s@.len(),
            forall|j: int| 0 <= j < start ==> is_space_char(#[trigger] s@[j]),
        decreases n - start,
    {
        start += 1;
    }
    let mut end: usize = n;
    while end > start && is_space(s.get_char(end - 1))
        invariant
            start <= end <= n,
            n == s@.len(),
            forall|j: int| end <= j < n ==> is_space_char(#[trigger] s@[j]),
        decreases end,
    {
        end -= 1;
    }
    proof {
        lemma_trim_start_subrange(s@, start as int);
        let t = s@.subrange(start as int, n as int);
        lemma_trim_end_subrange(t, end - start);
        assert(t.subrange(0, end - start) =~= s@.subrange(start as int, end as int));
    }
    s.substring_char(start, end)
}

/// Whether a line of the durable file contributes an entry: it must not
/// begin with the comment marker and must not be blank.
pub open spec fn line_kept(line: Seq<char>) -> bool {
    !(line.len() > 0 && line[0] == '#') && trim_spec(line).len() != 0
}

/// Whether a value occurs in a sequence of entries.
pub open spec fn entry_in(s: Seq<Seq<char>>, v: Seq<char>) -> bool {
    exists|i: int| 0 <= i < s.len() && s[i] == v
}

/// No entry occurs twice.
pub open spec fn entries_distinct(s: Seq<Seq<char>>) -> bool {
    forall|i: int, j: int| 0 <= i < j < s.len() ==> s[i] != s[j]
}

/// The entries after inserting a value with set semantics: an entry
/// already present is left alone, a new one is appended.
pub open spec fn after_insert(s: Seq<Seq<char>>, v: Seq<char>) -> Seq<Seq<char>> {
    if entry_in(s, v) {
        s
    } else {
        s.push(v)
    }
}

/// How often a value occurs among the entries.
pub open spec fn entry_count(s: Seq<Seq<char>>, v: Seq<char>) -> nat
    decreases s.len(),
{
    if s.len() == 0 {
        0
    } else {
        entry_count(s.drop_last(), v) + if s.last() == v {
            1nat
        } else {
            0nat
        }
    }
}

/// The index of the first line break, or the length if there is none.
pub open spec fn first_newline(s: Seq<char>) -> nat
    decreases s.len(),
{
    if s.len() == 0 {
        0
    } else if s[0] == '\n' {
        0
    } else {
        1 + first_newline(s.drop_first())
    }
}

/// The lines of a text: the segments between line breaks, with no empty
/// segment after a trailing line break.
pub open spec fn split_lines_spec(s: Seq<char>) -> Seq<Seq<char>>
    decreases s.len(),
{
    if s.len() == 0 {
        Seq::empty()
    } else {
        let i = first_newline(s);
        if i >= s.len() {
            seq![s]
        } else {
            seq![s.subrange(0, i as int)] + split_lines_spec(
                s.subrange(i + 1 as int, s.len() as int),
            )
        }
    }
}

/// The first line break of a line-break-free prefix followed by a line
/// break is exactly at the prefix's end.
proof fn lemma_first_newline_after(p: Seq<char>, t: Seq<char>)
    requires
        forall|j: int| 0 <= j < p.len() ==> (#[trigger] p[j]) != '\n',
    ensures
        first_newline(p + seq!['\n'] + t) == p.len(),
    decreases p.len(),
{
    let s = p + seq!['\n'] + t;
    if p.len() == 0 {
        assert(s[0] == '\n');
    } else {
        assert(s[0] == p[0]);
        let q = p.drop_first();
        assert(forall|j: int| 0 <= j < q.len() ==> (#[trigger] q[j]) != '\n');
        lemma_first_newline_after(q, t);
        assert(s.drop_first() =~= q + seq!['\n'] + t);
    }
}

/// Splitting a line-break-free prefix, a line break, and a rest yields
/// the prefix as the first line, then the lines of the rest.
proof fn lemma_split_lines_step(p: Seq<char>, t: Seq<char>)
    requires
        forall|j: int| 0 <= j < p.len() ==> (#[trigger] p[j]) != '\n',
    ensures
        split_lines_spec(p + seq!['\n'] + t) == seq![p] + split_lines_spec(t),
{
    let s = p + seq!['\n'] + t;
    lemma_first_newline_after(p, t);
    assert(s.len() == p.len() + 1 + t.len());
    assert(s.subrange(0, p.len() as int) =~= p);
    assert(s.subrange(p.len() + 1 as int, s.len() as int) =~= t);
    assert(split_lines_spec(s) =~= seq![p] + split_lines_spec(t));
}

/// Where the first line break lies, it is a line break, and nothing
/// before it is one.
proof fn lemma_first_newline_hits(s: Seq<char>)
    ensures
        first_newline(s) <= s.len(),
        first_newline(s) < s.len() ==> s[first_newline(s) as int] == '\n',
        forall|j: int| 0 <= j < first_newline(s) ==> (#[trigger] s[j]) != '\n',
    decreases s.len(),
{
    if s.len() > 0 && s[0] != '\n' {
        let q = s.drop_first();
        lemma_first_newline_hits(q);
        assert(forall|j: int| 0 <= j < q.len() ==> q[j] == s[j + 1]);
        assert(forall|j: int| 1 <= j < first_newline(s) ==> s[j] == q[j - 1]);
    }
}

/// The first line break of a text that holds one is unmoved by anything
/// appended after it.
proof fn lemma_first_newline_concat(x: Seq<char>, y: Seq<char>)
    requires
        first_newline(x) < x.len(),
    ensures
        first_newline(x + y) == first_newline(x),
    decreases x.len(),
{
    if x[0] != '\n' {
        let q = x.drop_first();
        lemma_first_newline_concat(q, y);
        assert((x + y).drop_first() =~= q + y);
    }
}

/// The lines of a text that ends on a line break, followed by more
/// text, are the lines of the two parts in turn.
proof fn lemma_split_lines_concat(a: Seq<char>, b: Seq<char>)
    requires
        a.len() > 0,
        a.last() == '\n',
    ensures
        split_lines_spec(a + b) == split_lines_spec(a) + split_lines_spec(b),
    decreases a.len(),
{
    lemma_first_newline_hits(a);
    let i = first_newline(a);
    assert(i < a.len()) by {
        if i == a.len() {
            assert(a[a.len() - 1] != '\n');
        }
    }
    lemma_first_newline_concat(a, b);
    let head = a.subrange(0, i as int);
    let tail = a.subrange(i + 1 as int, a.len() as int);
    assert((a + b).subrange(0, i as int) =~= head);
    assert((a + b).subrange(i + 1 as int, (a + b).len() as int) =~= tail + b);
    if tail.len() == 0 {
        assert(tail + b =~= b);
        assert(split_lines_spec(a) == seq![head] + split_lines_spec(tail));
        assert(split_lines_spec(tail) =~= Seq::<Seq<char>>::empty());
        assert(split_lines_spec(a) =~= seq![head]);
        assert(split_lines_spec(a + b) =~= seq![head] + split_lines_spec(b));
    } else {
        assert(tail.last() == a.last());
        lemma_split_lines_concat(tail, b);
        assert(split_lines_spec(a + b) =~= seq![head] + (split_lines_spec(tail)
            + split_lines_spec(b)));
        assert(split_lines_spec(a) =~= seq![head] + split_lines_spec(tail));
        assert(seq![head] + (split_lines_spec(tail) + split_lines_spec(b)) =~= (seq![head]
            + split_lines_spec(tail)) + split_lines_spec(b));
    }
}

/// A text without a line break is one single line, or none if empty.
proof fn lemma_split_lines_last(p: Seq<char>)
    requires
        forall|j: int| 0 <= j < p.len() ==> (#[trigger] p[j]) != '\n',
    ensures
        p.len() == 0 ==> split_lines_spec(p) == Seq::<Seq<char>>::empty(),
        p.len() > 0 ==> split_lines_spec(p) == seq![p],
{
    lemma_first_newline_hits(p);
    if p.len() > 0 && first_newline(p) < p.len() {
        assert(p[first_newline(p) as int] == '\n');
        assert(false);
    }
}

/// Splits a text into its lines.
pub fn split_lines(text: &str) -> (r: Vec<String>)
    ensures
        deep_of(r@) == split_lines_spec(text@),
{
    let n = text.unicode_len();
    let mut out: Vec<String> = Vec::new();
    let mut cur = String::new();
    let mut i: usize = 0;
    proof {
        assert(cur@ + text@.subrange(0, n as int) =~= text@);
        assert(deep_of(out@) =~= Seq::<Seq<char>>::empty());
        assert(deep_of(out@) + split_lines_spec(text@) =~= split_lines_spec(text@));
    }
    while i < n
        invariant
            i <= n,
            n == text@.len(),
            forall|j: int| 0 <= j < cur@.len() ==> (#[trigger] cur@[j]) != '\n',
            split_lines_spec(text@) == deep_of(out@) + split_lines_spec(
                cur@ + text@.subrange(i as int, n as int),
            ),
        decreases n - i,
    {
        let c = text.get_char(i);
        let ghost rest = text@.subrange(i as int, n as int);
        let ghost rest_next = text@.subrange(i + 1, n as int);
        let ghost line = cur@;
        let ghost seen = out@;
        proof {
            assert(rest =~= seq![text@[i as int]] + rest_next);
        }
        if c as u32 == 10 {
            proof {
                assert(line + rest =~= line + seq!['\n'] + rest_next);
                lemma_split_lines_step(line, rest_next);
            }
            out.push(cur);
            cur = String::new();
            proof {
                assert(deep_of(out@) =~= deep_of(seen) + seq![line]);
                assert(cur@ + rest_next =~= rest_next);
                assert(split_lines_spec(text@) == deep_of(seen) + (seq![line]
                    + split_lines_spec(rest_next)));
                assert(deep_of(seen) + (seq![line] + split_lines_spec(rest_next)) =~= deep_of(
                    out@,
                ) + split_lines_spec(rest_next));
            }
        } else {
            push_char(&mut cur, c);
            proof {
                assert(cur@ =~= line.push(c));
                assert(cur@ + rest_next =~= line + rest);
            }
        }
        i += 1;
    }
    proof {
        assert(cur@ + text@.subrange(n as int, n as int) =~= cur@);
        lemma_split_lines_last(cur@);
    }
    if cur.unicode_len() > 0 {
        let ghost line = cur@;
        let ghost seen = out@;
        out.push(cur);
        proof {
            assert(deep_of(out@) =~= deep_of(seen) + seq![line]);
            assert(deep_of(out@) =~= split_lines_spec(text@));
        }
    } else {
        proof {
            assert(deep_of(out@) + Seq::<Seq<char>>::empty() =~= deep_of(out@));
        }
    }
    out
}

/// The entries contributed by the lines of a durable file, in order.
pub open spec fn parse_lines_spec(lines: Seq<Seq<char>>) -> Seq<Seq<char>>
    decreases lines.len(),
{
    if lines.len() == 0 {
        Seq::empty()
    } else {
        let prev = parse_lines_spec(lines.drop_last());
        if line_kept(lines.last()) {
            after_insert(prev, trim_spec(lines.last()))
        } else {
            prev
        }
    }
}

/// The durable form: the generated-file warning, then one line per entry.
pub open spec fn render_spec(s: Seq<Seq<char>>) -> Seq<char>
    decreases s.len(),
{
    if s.len() == 0 {
        "# This file is autogenerated\n# Any modifications will be lost\n"@
    } else {
        render_spec(s.drop_last()) + s.last() + seq!['\n']
    }
}

/// The deep view of a vector of strings.
pub open spec fn deep_of(s: Seq<String>) -> Seq<Seq<char>> {
    Seq::new(s.len(), |i: int| s[i]@)
}

/// The set of approved ckeys.
pub struct WhitelistStore {
    entries: Vec<String>,
}

impl WhitelistStore {
    /// The entries, in insertion order.
    pub closed spec fn views(&self) -> Seq<Seq<char>> {
        deep_of(self.entries@)
    }

    /// No entry occurs twice.
    pub open spec fn wf(&self) -> bool {
        entries_distinct(self.views())
    }

    /// Whether a value is on the whitelist.
    pub open spec fn spec_contains(&self, v: Seq<char>) -> bool {
        entry_in(self.views(), v)
    }

    /// Creates an empty whitelist.
    pub fn new() -> (r: WhitelistStore)
        ensures
            r.wf(),
            r.views() == Seq::<Seq<char>>::empty(),
    {
        let w = WhitelistStore { entries: Vec::new() };
        proof {
            assert(w.views() =~= Seq::<Seq<char>>::empty());
        }
        w
    }

    /// The index of the entry equal to the given value, if any.
    fn find(&self, value: &String) -> (r: Option<usize>)
        ensures
            match r {
                Some(i) => i < self.views().len() && self.views()[i as int] == value@,
                None => !self.spec_contains(value@),
            },
    {
        let n = self.entries.len();
        let mut i: usize = 0;
        while i < n
            invariant
                i <= n,
                n == self.views().len(),
                n == self.entries@.len(),
                forall|j: int| 0 <= j < i ==> self.views()[j] != value@,
            decreases n - i,
        {
            if self.entries[i] == *value {
                return Some(i);
            }
            i += 1;
        }
        None
    }

    /// Adds a value with set semantics; returns whether membership
    /// changed, and only a change needs to be persisted.
    fn insert_string(&mut self, value: String) -> (added: bool)
        requires
            old(self).wf(),
        ensures
            final(self).wf(),
            final(self).views() == after_insert(old(self).views(), value@),
            added == !old(self).spec_contains(value@),
    {
        let found = self.find(&value);
        match found {
            Some(_) => false,
            None => {
                self.entries.push(value);
                proof {
                    assert(self.views() =~= old(self).views().push(value@));
                }
                true
            },
        }
    }

    /// Adds a ckey to the whitelist; returns whether membership changed.
    pub fn insert(&mut self, ckey: &Ckey) -> (added: bool)
        requires
            old(self).wf(),
        ensures
            final(self).wf(),
            final(self).views() == after_insert(old(self).views(), ckey@),
            added == !old(self).spec_contains(ckey@),
    {
        self.insert_string(ckey.as_str().to_owned())
    }

    /// Removes a ckey from the whitelist; returns whether membership
    /// changed, and only a change needs to be persisted.
    pub fn remove(&mut self, ckey: &Ckey) -> (removed: bool)
        requires
            old(self).wf(),
        ensures
            final(self).wf(),
            removed == old(self).spec_contains(ckey@),
            !removed ==> final(self).views() == old(self).views(),
            removed ==> exists|i: int|
                0 <= i < old(self).views().len() && old(self).views()[i] == ckey@
                    && final(self).views() == old(self).views().remove(i),
            forall|v: Seq<char>|
                #[trigger] final(self).spec_contains(v) <==> (old(self).spec_contains(v) && v
                    != ckey@),
    {
        let value = ckey.as_str().to_owned();
        let found = self.find(&value);
        match found {
            Some(i) => {
                self.entries.remove(i);
                proof {
                    assert(self.views() =~= old(self).views().remove(i as int));
                    let vs = old(self).views();
                    assert forall|v: Seq<char>|
                        #[trigger] self.spec_contains(v) implies (old(self).spec_contains(v) && v
                        != ckey@) by {
                        let j = choose|j: int|
                            0 <= j < self.views().len() && self.views()[j] == v;
                        if j < i {
                            assert(vs[j] == v);
                        } else {
                            assert(vs[j + 1] == v);
                        }
                    }
                    assert forall|v: Seq<char>|
                        (old(self).spec_contains(v) && v != ckey@) implies #[trigger] self
                        .spec_contains(v) by {
                        let j = choose|j: int| 0 <= j < vs.len() && vs[j] == v;
                        if j < i {
                            assert(self.views()[j] == v);
                        } else {
                            assert(j != i);
                            assert(self.views()[j - 1] == v);
                        }
                    }
                }
                true
            },
            None => false,
        }
    }

    /// A snapshot of the whitelist, in insertion order.
    pub fn list(&self) -> (r: Vec<String>)
        ensures
            deep_of(r@) == self.views(),
    {
        let n = self.entries.len();
        let mut out: Vec<String> = Vec::new();
        let mut i: usize = 0;
        while i < n
            invariant
                i <= n,
                n == self.entries@.len(),
                out@.len() == i,
                forall|j: int| 0 <= j < i ==> out@[j]@ == #[trigger] self.entries@[j]@,
            decreases n - i,
        {
            out.push(self.entries[i].clone());
            i += 1;
        }
        proof {
            assert(deep_of(out@) =~= self.views());
        }
        out
    }

    /// The number of entries.
    pub fn len(&self) -> (r: usize)
        ensures
            r == self.views().len(),
    {
        self.entries.len()
    }

    /// Feeds one line of the durable file into the store: blank lines and
    /// comment lines are skipped, anything else is trimmed and added with
    /// set semantics.
    pub fn ingest_line(&mut self, line: &str) -> (added: bool)
        requires
            old(self).wf(),
        ensures
            final(self).wf(),
            line_kept(line@) ==> final(self).views() == after_insert(
                old(self).views(),
                trim_spec(line@),
            ) && added == !old(self).spec_contains(trim_spec(line@)),
            !line_kept(line@) ==> final(self).views() == old(self).views() && !added,
    {
        if s_starts_with_hash(line) {
            return false;
        }
        let trimmed = trim_str(line);
        if trimmed.unicode_len() == 0 {
            return false;
        }
        self.insert_string(trimmed.to_owned())
    }

    /// Builds a whitelist from the lines of the durable file.
    pub fn from_lines(lines: &Vec<String>) -> (r: WhitelistStore)
        ensures
            r.wf(),
            r.views() == parse_lines_spec(deep_of(lines@)),
    {
        let mut store = WhitelistStore::new();
        let n = lines.len();
        let mut i: usize = 0;
        while i < n
            invariant
                i <= n,
                n == lines@.len(),
                store.wf(),
                store.views() == parse_lines_spec(deep_of(lines@).subrange(0, i as int)),
            decreases n - i,
        {
            let ghost pre = deep_of(lines@).subrange(0, i as int);
            let ghost cur = deep_of(lines@).subrange(0, i + 1);
            store.ingest_line(lines[i].as_str());
            proof {
                assert(cur.drop_last() =~= pre);
                assert(cur.last() == lines@[i as int]@);
            }
            i += 1;
        }
        proof {
            assert(deep_of(lines@).subrange(0, n as int) =~= deep_of(lines@));
        }
        store
    }

    /// Builds a whitelist from the whole durable file.
    pub fn from_text(text: &str) -> (r: WhitelistStore)
        ensures
            r.wf(),
            r.views() == parse_lines_spec(split_lines_spec(text@)),
    {
        let lines = split_lines(text);
        WhitelistStore::from_lines(&lines)
    }

    /// The durable form of the whitelist, ready to be written out: the
    /// generated-file warning, then one entry per line.
    pub fn render(&self) -> (r: String)
        ensures
            r@ == render_spec(self.views()),
    {
        let mut out = "# This file is autogenerated\n# Any modifications will be lost\n".to_owned();
        let n = self.entries.len();
        let mut i: usize = 0;
        while i < n
            invariant
                i <= n,
                n == self.entries@.len(),
                out@ == render_spec(self.views().subrange(0, i as int)),
            decreases n - i,
        {
            let ghost pre = self.views().subrange(0, i as int);
            let ghost cur = self.views().subrange(0, i + 1);
            out.append(self.entries[i].as_str());
            push_char(&mut out, '\n');
            proof {
                assert(cur.drop_last() =~= pre);
                assert(cur.last() == self.views()[i as int]);
            }
            i += 1;
        }
        proof {
            assert(self.views().subrange(0, n as int) =~= self.views());
        }
        out
    }
}

/// Whether the first character of the string is the comment marker.
fn s_starts_with_hash(s: &str) -> (r: bool)
    ensures
        r == (s@.len() > 0 && s@[0] == '#'),
{
    if s.unicode_len() == 0 {
        return false;
    }
    let c = s.get_char(0);
    proof {
        reveal_strlit("#");
    }
    c as u32 == 35
}

/// A string without a line break.
pub open spec fn line_break_free(e: Seq<char>) -> bool {
    forall|j: int| 0 <= j < e.len() ==> (#[trigger] e[j]) != '\n'
}

/// An entry that survives the durable form unchanged: non-blank, not
/// taken for a comment, carrying no surrounding whitespace and no line
/// break.
pub open spec fn round_trip_entry(e: Seq<char>) -> bool {
    e.len() > 0 && e[0] != '#' && trim_spec(e) == e && line_break_free(e)
}

/// The two lines of the generated-file warning.
pub open spec fn warning_lines() -> Seq<Seq<char>> {
    seq!["# This file is autogenerated"@, "# Any modifications will be lost"@]
}

/// The empty whitelist renders as exactly the warning lines.
proof fn lemma_split_warning()
    ensures
        split_lines_spec(render_spec(Seq::empty())) == warning_lines(),
{
    reveal_strlit("# This file is autogenerated\n# Any modifications will be lost\n");
    reveal_strlit("# This file is autogenerated");
    reveal_strlit("# Any modifications will be lost");
    let l1 = "# This file is autogenerated"@;
    let l2 = "# Any modifications will be lost"@;
    let w = "# This file is autogenerated\n# Any modifications will be lost\n"@;
    assert(w =~= l1 + seq!['\n'] + (l2 + seq!['\n']));
    assert(forall|j: int| 0 <= j < l1.len() ==> (#[trigger] l1[j]) != '\n');
    assert(forall|j: int| 0 <= j < l2.len() ==> (#[trigger] l2[j]) != '\n');
    lemma_split_lines_step(l1, l2 + seq!['\n']);
    assert(l2 + seq!['\n'] =~= l2 + seq!['\n'] + Seq::<char>::empty());
    lemma_split_lines_step(l2, Seq::empty());
    assert(split_lines_spec(Seq::<char>::empty()) =~= Seq::<Seq<char>>::empty());
    assert(seq![l1] + (seq![l2] + Seq::<Seq<char>>::empty()) =~= warning_lines());
}

/// The rendered form always ends on a line break.
proof fn lemma_render_ends_newline(s: Seq<Seq<char>>)
    ensures
        render_spec(s).len() > 0,
        render_spec(s).last() == '\n',
    decreases s.len(),
{
    if s.len() == 0 {
        reveal_strlit("# This file is autogenerated\n# Any modifications will be lost\n");
    } else {
        lemma_render_ends_newline(s.drop_last());
    }
}

/// The lines of the rendered form: the warning, then the entries.
proof fn lemma_split_render(s: Seq<Seq<char>>)
    requires
        forall|i: int| 0 <= i < s.len() ==> line_break_free(#[trigger] s[i]),
    ensures
        split_lines_spec(render_spec(s)) == warning_lines() + s,
    decreases s.len(),
{
    if s.len() == 0 {
        lemma_split_warning();
        assert(warning_lines() + s =~= warning_lines());
    } else {
        let p = s.drop_last();
        let e = s.last();
        lemma_split_render(p);
        lemma_render_ends_newline(p);
        lemma_split_lines_concat(render_spec(p), e + seq!['\n']);
        assert(e + seq!['\n'] =~= e + seq!['\n'] + Seq::<char>::empty());
        assert(line_break_free(e));
        lemma_split_lines_step(e, Seq::empty());
        assert(split_lines_spec(Seq::<char>::empty()) =~= Seq::<Seq<char>>::empty());
        assert(render_spec(s) =~= render_spec(p) + (e + seq!['\n']));
        assert(split_lines_spec(render_spec(s)) == split_lines_spec(render_spec(p) + (e + seq![
            '\n',
        ])));
        assert(seq![e] + Seq::<Seq<char>>::empty() =~= seq![e]);
        assert((warning_lines() + p) + seq![e] =~= warning_lines() + s);
    }
}

/// Parsing the warning and a list of round-trip entries yields exactly
/// those entries.
proof fn lemma_parse_warning_and_entries(s: Seq<Seq<char>>)
    requires
        entries_distinct(s),
        forall|i: int| 0 <= i < s.len() ==> round_trip_entry(#[trigger] s[i]),
    ensures
        parse_lines_spec(warning_lines() + s) == s,
    decreases s.len(),
{
    reveal_strlit("# This file is autogenerated");
    reveal_strlit("# Any modifications will be lost");
    if s.len() == 0 {
        let h = warning_lines() + s;
        assert(h =~= warning_lines());
        assert(h.last()[0] == '#');
        assert(!line_kept(h.last()));
        assert(h.drop_last() =~= seq!["# This file is autogenerated"@]);
        assert(h.drop_last().last()[0] == '#');
        assert(!line_kept(h.drop_last().last()));
        assert(h.drop_last().drop_last() =~= Seq::<Seq<char>>::empty());
        assert(parse_lines_spec(h) == parse_lines_spec(h.drop_last()));
        assert(parse_lines_spec(h.drop_last()) == parse_lines_spec(h.drop_last().drop_last()));
        assert(parse_lines_spec(Seq::<Seq<char>>::empty()) =~= Seq::<Seq<char>>::empty());
        assert(parse_lines_spec(h) =~= s);
    } else {
        let t = warning_lines() + s;
        let p = s.drop_last();
        let e = s.last();
        assert(t.drop_last() =~= warning_lines() + p);
        assert(entries_distinct(p));
        lemma_parse_warning_and_entries(p);
        assert(round_trip_entry(e));
        assert(line_kept(e));
        assert(t.last() == e);
        assert(!entry_in(p, e)) by {
            if entry_in(p, e) {
                let i = choose|i: int| 0 <= i < p.len() && p[i] == e;
                assert(s[i] == s[s.len() - 1]);
            }
        }
        assert(parse_lines_spec(t) == after_insert(p, trim_spec(e)));
        assert(after_insert(p, e) =~= s);
    }
}

/// Rendering a whitelist of round-trip entries and parsing the result
/// back reproduces the entries exactly, in order.
pub proof fn lemma_whitelist_round_trip(s: Seq<Seq<char>>)
    requires
        entries_distinct(s),
        forall|i: int| 0 <= i < s.len() ==> round_trip_entry(#[trigger] s[i]),
    ensures
        parse_lines_spec(split_lines_spec(render_spec(s))) == s,
{
    assert(forall|i: int| 0 <= i < s.len() ==> line_break_free(#[trigger] s[i]));
    lemma_split_render(s);
    lemma_parse_warning_and_entries(s);
}

/// A non-empty normalized ckey survives the durable form unchanged: its
/// characters are ASCII digits and lowercase letters, so it carries no
/// whitespace, no line break, and no leading comment marker.
pub proof fn lemma_normal_entry_round_trips(e: Seq<char>)
    requires
        crate::ckey::is_normal(e),
        e.len() > 0,
    ensures
        round_trip_entry(e),
{
    assert(forall|j: int| 0 <= j < e.len() ==> !is_space_char(#[trigger] e[j]));
    assert(trim_start_spec(e) == e);
    assert(trim_end_spec(e) == e);
}

/// Inserting a ckey twice is the same as inserting it once, the second
/// insertion reports no change, and the result lists the ckey exactly
/// once.
pub proof fn lemma_insert_twice(s: Seq<Seq<char>>, v: Seq<char>)
    requires
        entries_distinct(s),
    ensures
        after_insert(after_insert(s, v), v) == after_insert(s, v),
        entry_in(after_insert(s, v), v),
        entry_count(after_insert(s, v), v) == 1,
{
    let t = after_insert(s, v);
    if entry_in(s, v) {
        lemma_count_of_distinct(s, v);
    } else {
        assert(t[t.len() - 1] == v);
        assert(entry_in(t, v));
        lemma_count_of_distinct(s, v);
        assert(entry_count(t, v) == entry_count(t.drop_last(), v) + 1);
        assert(t.drop_last() =~= s);
    }
}

/// Among distinct entries a value occurs once if present, never if not.
proof fn lemma_count_of_distinct(s: Seq<Seq<char>>, v: Seq<char>)
    requires
        entries_distinct(s),
    ensures
        entry_in(s, v) ==> entry_count(s, v) == 1,
        !entry_in(s, v) ==> entry_count(s, v) == 0,
    decreases s.len(),
{
    if s.len() > 0 {
        let t = s.drop_last();
        assert(entries_distinct(t));
        lemma_count_of_distinct(t, v);
        if s.last() == v {
            assert(forall|i: int| 0 <= i < t.len() ==> t[i] == s[i] && s[i] != s[s.len() - 1]);
            assert(!entry_in(t, v));
        } else {
            if entry_in(s, v) {
                let i = choose|i: int| 0 <= i < s.len() && s[i] == v;
                assert(t[i] == v);
                assert(entry_in(t, v));
            } else {
                assert(!entry_in(t, v)) by {
                    if entry_in(t, v) {
                        let i = choose|i: int| 0 <= i < t.len() && t[i] == v;
                        assert(s[i] == v);
                    }
                }
            }
        }
    }
}

} // verus!
