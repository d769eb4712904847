//! An ordered header table: entries keep their order of addition (including
//! duplicates, for serialization), while lookup is ASCII-case-insensitive and
//! resolves to the most recently added entry of a name.

use vstd::prelude::*;

use crate::error::HttpError;
use crate::strutil::{
    char_pos, chars_ieq, find_char, lemma_char_pos, str_ieq, trim, trim_end, trim_end_spec,
    trim_spec,
};

verus! {

/// One header entry: a name and a value.
#[derive(Debug, Clone)]
pub struct HttpHeader {
    pub name: String,
    pub value: String,
}

impl View for HttpHeader {
    type V = (Seq<char>, Seq<char>);

    open spec fn view(&self) -> (Seq<char>, Seq<char>) {
        (self.name@, self.value@)
    }
}

impl HttpHeader {
    pub fn new(name: String, value: String) -> (r: HttpHeader)
        ensures
            r@ == (name@, value@),
    {
        HttpHeader { name, value }
    }
}

/// Ordered header table with case-insensitive lookup.
#[derive(Debug)]
pub struct HttpHeaders {
    headers: Vec<HttpHeader>,
}

impl View for HttpHeaders {
    type V = Seq<(Seq<char>, Seq<char>)>;

    closed spec fn view(&self) -> Seq<(Seq<char>, Seq<char>)> {
        Seq::new(self.headers@.len(), |i: int| self.headers@[i]@)
    }
}

/// The value lookup resolves for `name`: that of the last entry whose name
/// matches ignoring ASCII case, if any.
pub open spec fn get_spec(hs: Seq<(Seq<char>, Seq<char>)>, name: Seq<char>) -> Option<Seq<char>>
    decreases hs.len(),
{
    if hs.len() == 0 {
        None
    } else if chars_ieq(hs.last().0, name) {
        Some(hs.last().1)
    } else {
        get_spec(hs.drop_last(), name)
    }
}

/// The values of every entry whose name matches ignoring ASCII case, in
/// order of addition.
pub open spec fn get_all_spec(hs: Seq<(Seq<char>, Seq<char>)>, name: Seq<char>) -> Seq<Seq<char>>
    decreases hs.len(),
{
    if hs.len() == 0 {
        Seq::<Seq<char>>::empty()
    } else if chars_ieq(hs.last().0, name) {
        get_all_spec(hs.drop_last(), name).push(hs.last().1)
    } else {
        get_all_spec(hs.drop_last(), name)
    }
}

/// Meaning of one raw header line.
pub enum HeaderLineSpec {
    /// Blank once line terminators are trimmed: the header block is over.
    End,
    /// A well-formed `name: value` line, both sides trimmed.
    Entry { name: Seq<char>, value: Seq<char> },
    /// No `:` separator: the line is malformed.
    NoColon,
}

/// What one raw header line (terminator still attached) means.
pub open spec fn header_line_spec(line: Seq<char>) -> HeaderLineSpec {
    let t = trim_end_spec(line);
    if t.len() == 0 {
        HeaderLineSpec::End
    } else {
        match char_pos(t, ':') {
            Some(k) => HeaderLineSpec::Entry {
                name: trim_spec(t.take(k)),
                value: trim_spec(t.skip(k + 1)),
            },
            None => HeaderLineSpec::NoColon,
        }
    }
}

impl HttpHeaders {
    pub fn new() -> (r: HttpHeaders)
        ensures
            r@ == Seq::<(Seq<char>, Seq<char>)>::empty(),
    {
        let r = HttpHeaders { headers: Vec::new() };
        proof {
            assert(r@ =~= Seq::<(Seq<char>, Seq<char>)>::empty());
        }
        r
    }

    /// Appends an entry; duplicates of a name are all retained.
    pub fn add(&mut self, name: String, value: String)
        ensures
            final(self)@ == old(self)@.push((name@, value@)),
    {
        let ghost n0 = name@;
        let ghost v0 = value@;
        self.headers.push(HttpHeader::new(name, value));
        proof {
            assert(final(self)@ =~= old(self)@.push((n0, v0)));
        }
    }

    /// Case-insensitive lookup, resolving to the most recently added entry
    /// of that name.
    pub fn get(&self, name: &str) -> (r: Option<&str>)
        ensures
            match r {
                Some(v) => get_spec(self@, name@) == Some(v@),
                None => get_spec(self@, name@) is None,
            },
    {
        let mut i: usize = self.headers.len();
        proof {
            assert(self@.take(i as int) =~= self@);
        }
        while i > 0
            invariant
                i <= self.headers.len(),
                self@.len() == self.headers@.len(),
                get_spec(self@, name@) == get_spec(self@.take(i as int), name@),
            decreases i,
        {
            i -= 1;
            if str_ieq(self.headers[i].name.as_str(), name) {
                proof {
                    assert(self@.take(i + 1).last() == self@[i as int]);
                }
                return Some(self.headers[i].value.as_str());
            }
            proof {
                assert(self@.take(i + 1).last() == self@[i as int]);
                assert(self@.take(i + 1).drop_last() =~= self@.take(i as int));
            }
        }
        None
    }

    /// Every value stored under `name` (ignoring ASCII case), in order of
    /// addition — unlike `get`, which resolves to the last one.
    pub fn get_all(&self, name: &str) -> (r: Vec<&str>)
        ensures
            r.deep_view() == get_all_spec(self@, name@),
    {
        let mut r: Vec<&str> = Vec::new();
        let mut i: usize = 0;
        proof {
            assert(self@.take(0) =~= Seq::<(Seq<char>, Seq<char>)>::empty());
            assert(r.deep_view() =~= Seq::<Seq<char>>::empty());
        }
        while i < self.headers.len()
            invariant
                i <= self.headers.len(),
                self@.len() == self.headers@.len(),
                r.deep_view() == get_all_spec(self@.take(i as int), name@),
            decreases self.headers@.len() - i,
        {
            let ghost dv0 = r.deep_view();
            if str_ieq(self.headers[i].name.as_str(), name) {
                r.push(self.headers[i].value.as_str());
            }
            proof {
                assert(self@.take(i + 1).last() == self@[i as int]);
                assert(self@.take(i + 1).drop_last() =~= self@.take(i as int));
                if chars_ieq(self@[i as int].0, name@) {
                    assert(r.deep_view() =~= dv0.push(self@[i as int].1));
                }
            }
            i += 1;
        }
        proof {
            assert(self@.take(self@.len() as int) =~= self@);
        }
        r
    }

    /// The entries in order of addition, duplicates included, for
    /// serialization.
    pub fn iter(&self) -> (r: &Vec<HttpHeader>)
        ensures
            r@.len() == self@.len(),
            forall|i: int| 0 <= i < self@.len() ==> r@[i]@ == self@[i],
    {
        &self.headers
    }

    /// Consumes one raw header line: `Ok(true)` at the blank line ending the
    /// block, `Ok(false)` after adding a `name: value` entry, or an error for
    /// a line without a colon.
    pub fn add_line(&mut self, line: &str) -> (r: Result<bool, HttpError>)
        ensures
            match header_line_spec(line@) {
                HeaderLineSpec::End => {
                    &&& r == Ok::<bool, HttpError>(true)
                    &&& final(self)@ == old(self)@
                },
                HeaderLineSpec::Entry { name, value } => {
                    &&& r == Ok::<bool, HttpError>(false)
                    &&& final(self)@ == old(self)@.push((name, value))
                },
                HeaderLineSpec::NoColon => {
                    &&& r == Err::<bool, HttpError>(HttpError::HeaderMissingColon)
                    &&& final(self)@ == old(self)@
                },
            },
    {
        let t = trim_end(line);
        let n = t.unicode_len();
        if n == 0 {
            return Ok(true);
        }
        match find_char(t, ':') {
            Some(k) => {
                proof {
                    lemma_char_pos(t@, ':');
                    assert(t@.take(k as int) =~= t@.subrange(0, k as int));
                    assert(t@.skip(k + 1) =~= t@.subrange(k + 1, n as int));
                }
                let name = trim(t.substring_char(0, k));
                let value = trim(t.substring_char(k + 1, n));
                self.add(String::from_str(name), String::from_str(value));
                Ok(false)
            },
            None => Err(HttpError::HeaderMissingColon),
        }
    }
}

/// Lookup ignores the ASCII case of the queried name.
pub proof fn lemma_get_case_insensitive(
    hs: Seq<(Seq<char>, Seq<char>)>,
    a: Seq<char>,
    b: Seq<char>,
)
    requires
        chars_ieq(a, b),
    ensures
        get_spec(hs, a) == get_spec(hs, b),
    decreases hs.len(),
{
    if hs.len() > 0 {
        assert(chars_ieq(hs.last().0, a) ==> chars_ieq(hs.last().0, b));
        assert(chars_ieq(hs.last().0, b) ==> chars_ieq(hs.last().0, a));
        if !chars_ieq(hs.last().0, a) {
            lemma_get_case_insensitive(hs.drop_last(), a, b);
        }
    }
}

/// After adding an entry, a matching lookup returns exactly that value, and
/// any other lookup is unchanged: the last-added entry wins.
pub proof fn lemma_get_last_added(
    hs: Seq<(Seq<char>, Seq<char>)>,
    name: Seq<char>,
    value: Seq<char>,
    q: Seq<char>,
)
    ensures
        chars_ieq(name, q) ==> get_spec(hs.push((name, value)), q) == Some(value),
        !chars_ieq(name, q) ==> get_spec(hs.push((name, value)), q) == get_spec(hs, q),
{
    let hs2 = hs.push((name, value));
    assert(hs2.last() == (name, value));
    assert(hs2.drop_last() =~= hs);
}

/// What lookup finds, spelled out: a successful lookup returns the value of
/// a matching entry that no later entry overrides, and a failed lookup means
/// no entry matches at all.
pub proof fn lemma_get_characterization(hs: Seq<(Seq<char>, Seq<char>)>, q: Seq<char>)
    ensures
        match get_spec(hs, q) {
            Some(v) => exists|i: int|
                0 <= i < hs.len() && chars_ieq(#[trigger] hs[i].0, q) && hs[i].1 == v && forall|
                    j: int,
                |
                    i < j < hs.len() ==> !chars_ieq(#[trigger] hs[j].0, q),
            None => forall|i: int| 0 <= i < hs.len() ==> !chars_ieq(#[trigger] hs[i].0, q),
        },
    decreases hs.len(),
{
    if hs.len() > 0 && !chars_ieq(hs.last().0, q) {
        lemma_get_characterization(hs.drop_last(), q);
        assert(forall|j: int| 0 <= j < hs.len() - 1 ==> hs.drop_last()[j] == hs[j]);
    }
}

} // verus!
