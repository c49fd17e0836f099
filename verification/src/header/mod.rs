//! The header container: an ordered multimap from case-insensitive names to
//! raw value byte strings, preserving insertion order for serialization.

pub mod common;
pub mod internals;
pub mod parsing;

use vstd::prelude::*;
use crate::ascii::{spec_lower, spec_is_token, eq_ignore_case};

verus! {

/// One header field: its name as first seen, and one raw byte string per
/// occurrence of the field.
#[derive(Clone, Debug)]
pub struct HeaderEntry {
    /// The field name, with the case it arrived in.
    pub name: Vec<u8>,
    /// The raw values, one per field line, in arrival order.
    pub raw: Vec<Vec<u8>>,
}

impl View for HeaderEntry {
    type V = (Seq<u8>, Seq<Seq<u8>>);

    open spec fn view(&self) -> (Seq<u8>, Seq<Seq<u8>>) {
        (self.name@, self.raw.deep_view())
    }
}

/// A map of header fields on requests and responses.
#[derive(Clone, Debug)]
pub struct Headers {
    entries: Vec<HeaderEntry>,
}

impl View for Headers {
    type V = Seq<(Seq<u8>, Seq<Seq<u8>>)>;

    closed spec fn view(&self) -> Seq<(Seq<u8>, Seq<Seq<u8>>)> {
        self.entries@.map_values(|e: HeaderEntry| e@)
    }
}

/// The first index of `m` whose name equals `name` up to ASCII case, if any.
pub open spec fn spec_find_header(m: Seq<(Seq<u8>, Seq<Seq<u8>>)>, name: Seq<u8>) -> Option<int>
    decreases m.len(),
{
    if m.len() == 0 {
        None
    } else if spec_lower(m[0].0) == spec_lower(name) {
        Some(0)
    } else {
        match spec_find_header(m.drop_first(), name) {
            Some(i) => Some(i + 1),
            None => None,
        }
    }
}

/// A header map the engine maintains: every name is a token, names are
/// unique up to case, and every entry holds at least one value.
pub open spec fn spec_headers_wf(m: Seq<(Seq<u8>, Seq<Seq<u8>>)>) -> bool {
    &&& forall|i: int| 0 <= i < m.len() ==> spec_is_token(#[trigger] m[i].0)
    &&& forall|i: int, j: int|
        0 <= i < j < m.len() ==> spec_lower(#[trigger] m[i].0) != spec_lower(#[trigger] m[j].0)
    &&& forall|i: int| 0 <= i < m.len() ==> (#[trigger] m[i].1).len() >= 1
}

impl Headers {
    /// A well-formed header map; established by the constructor and kept by
    /// every mutation.
    pub open spec fn wf(&self) -> bool {
        spec_headers_wf(self@)
    }

    /// Creates a new, empty headers map.
    pub fn new() -> (r: Headers)
        ensures
            r@ =~= Seq::<(Seq<u8>, Seq<Seq<u8>>)>::empty(),
            r.wf(),
    {
        Headers { entries: Vec::new() }
    }

    /// Returns the number of header fields in the map.
    pub fn len(&self) -> (r: usize)
        ensures
            r == self@.len(),
    {
        self.entries.len()
    }

    /// Remove all headers from the map.
    pub fn clear(&mut self)
        ensures
            final(self)@ =~= Seq::<(Seq<u8>, Seq<Seq<u8>>)>::empty(),
            final(self).wf(),
    {
        self.entries.clear();
    }

    /// The index of the field named `name` (any case), if present.
    pub fn find(&self, name: &[u8]) -> (r: Option<usize>)
        ensures
            match r {
                Some(i) => i < self@.len() && spec_find_header(self@, name@) == Some(i as int)
                    && spec_lower(self@[i as int].0) == spec_lower(name@),
                None => spec_find_header(self@, name@) is None,
            },
    {
        let mut i: usize = 0;
        proof {
            assert(self@.subrange(0, self@.len() as int) =~= self@);
        }
        while i < self.entries.len()
            invariant
                0 <= i <= self.entries@.len(),
                self@.len() == self.entries@.len(),
                forall|j: int|
                    0 <= j < self@.len() ==> #[trigger] self@[j] == self.entries@[j]@,
                forall|j: int| 0 <= j < i ==> spec_lower(#[trigger] self@[j].0) != spec_lower(name@),
                spec_find_header(self@, name@) == (match spec_find_header(
                    self@.subrange(i as int, self@.len() as int),
                    name@,
                ) {
                    Some(k) => Some(k + i),
                    None => None::<int>,
                }),
            decreases self.entries@.len() - i,
        {
            proof {
                let tail = self@.subrange(i as int, self@.len() as int);
                assert(tail[0] == self@[i as int]);
                assert(tail.drop_first() =~= self@.subrange(i as int + 1, self@.len() as int));
            }
            if eq_ignore_case(self.entries[i].name.as_slice(), name) {
                return Some(i);
            }
            i = i + 1;
        }
        proof {
            assert(self@.subrange(i as int, self@.len() as int) =~= Seq::<(
                Seq<u8>,
                Seq<Seq<u8>>,
            )>::empty());
        }
        None
    }

    /// Whether a field named `name` (any case) is present.
    pub fn has_name(&self, name: &[u8]) -> (r: bool)
        ensures
            r == (spec_find_header(self@, name@) is Some),
    {
        match self.find(name) {
            Some(_) => true,
            None => false,
        }
    }

    /// The raw values of the field named `name`, if present, copied out.
    pub fn get_raw(&self, name: &[u8]) -> (r: Option<Vec<Vec<u8>>>)
        ensures
            match r {
                Some(v) => {
                    &&& spec_find_header(self@, name@) matches Some(i)
                    &&& v.deep_view() == self@[spec_find_header(self@, name@).unwrap()].1
                },
                None => spec_find_header(self@, name@) is None,
            },
    {
        match self.find(name) {
            Some(i) => Some(copy_raw(&self.entries[i].raw)),
            None => None,
        }
    }

    /// Sets the field `name` to exactly the values `value`, replacing any
    /// prior values; requires a token name and at least one value.
    pub fn set_raw(&mut self, name: Vec<u8>, value: Vec<Vec<u8>>)
        requires
            old(self).wf(),
            spec_is_token(name@),
            value.deep_view().len() >= 1,
        ensures
            final(self).wf(),
            final(self)@ == (match spec_find_header(old(self)@, name@) {
                Some(i) => old(self)@.update(i, (old(self)@[i].0, value.deep_view())),
                None => old(self)@.push((name@, value.deep_view())),
            }),
    {
        let found = self.find(name.as_slice());
        match found {
            Some(i) => {
                let ghost oldm = self@;
                let name_keep = vstd::slice::slice_to_vec(self.entries[i].name.as_slice());
                let entry = HeaderEntry { name: name_keep, raw: value };
                self.entries.set(i, entry);
                proof {
                    assert(self@ =~= oldm.update(i as int, (oldm[i as int].0, value.deep_view())));
                    lemma_update_keeps_wf(oldm, i as int, value.deep_view());
                }
            },
            None => {
                let ghost oldm = self@;
                self.entries.push(HeaderEntry { name, raw: value });
                proof {
                    assert(self@ =~= oldm.push((name@, value.deep_view())));
                    lemma_push_keeps_wf(oldm, name@, value.deep_view());
                }
            },
        }
    }

    /// Appends one raw value line to the field `name`, creating the field if
    /// absent; this is how the parser accumulates repeated fields.
    pub fn add_raw(&mut self, name: Vec<u8>, piece: Vec<u8>)
        requires
            old(self).wf(),
            spec_is_token(name@),
        ensures
            final(self).wf(),
            final(self)@ == (match spec_find_header(old(self)@, name@) {
                Some(i) => old(self)@.update(
                    i,
                    (old(self)@[i].0, old(self)@[i].1.push(piece@)),
                ),
                None => old(self)@.push((name@, seq![piece@])),
            }),
    {
        let found = self.find(name.as_slice());
        match found {
            Some(i) => {
                let ghost oldm = self@;
                let mut entry = HeaderEntry {
                    name: vstd::slice::slice_to_vec(self.entries[i].name.as_slice()),
                    raw: copy_raw(&self.entries[i].raw),
                };
                entry.raw.push(piece);
                proof {
                    assert(entry.raw.deep_view() =~~= oldm[i as int].1.push(piece@));
                }
                self.entries.set(i, entry);
                proof {
                    assert(self@ =~= oldm.update(
                        i as int,
                        (oldm[i as int].0, oldm[i as int].1.push(piece@)),
                    ));
                    lemma_update_keeps_wf(oldm, i as int, oldm[i as int].1.push(piece@));
                }
            },
            None => {
                let ghost oldm = self@;
                let mut raw: Vec<Vec<u8>> = Vec::new();
                raw.push(piece);
                proof {
                    assert(raw.deep_view() =~~= seq![piece@]);
                }
                self.entries.push(HeaderEntry { name, raw });
                proof {
                    assert(self@ =~= oldm.push((name@, seq![piece@])));
                    lemma_push_keeps_wf(oldm, name@, seq![piece@]);
                }
            },
        }
    }

    /// Removes the field named `name` (any case); returns whether one existed.
    pub fn remove_raw(&mut self, name: &[u8]) -> (r: bool)
        requires
            old(self).wf(),
        ensures
            final(self).wf(),
            r == (spec_find_header(old(self)@, name@) is Some),
            final(self)@ == (match spec_find_header(old(self)@, name@) {
                Some(i) => old(self)@.remove(i),
                None => old(self)@,
            }),
    {
        let found = self.find(name);
        match found {
            Some(i) => {
                let ghost oldm = self@;
                self.entries.remove(i);
                proof {
                    assert(self@ =~= oldm.remove(i as int));
                    lemma_remove_keeps_wf(oldm, i as int);
                }
                true
            },
            None => false,
        }
    }

    /// The name of the field at position `i`, copied out.
    pub fn name_at(&self, i: usize) -> (r: Vec<u8>)
        requires
            i < self@.len(),
        ensures
            r@ == self@[i as int].0,
    {
        vstd::slice::slice_to_vec(self.entries[i].name.as_slice())
    }

    /// The raw values of the field at position `i`, copied out.
    pub fn raw_at(&self, i: usize) -> (r: Vec<Vec<u8>>)
        requires
            i < self@.len(),
        ensures
            r.deep_view() == self@[i as int].1,
    {
        copy_raw(&self.entries[i].raw)
    }
}

/// Copies a list of raw value lines.
fn copy_raw(raw: &Vec<Vec<u8>>) -> (r: Vec<Vec<u8>>)
    ensures
        r.deep_view() == raw.deep_view(),
{
    let mut out: Vec<Vec<u8>> = Vec::new();
    let mut i: usize = 0;
    proof {
        assert(out.deep_view() =~= raw.deep_view().take(0));
    }
    while i < raw.len()
        invariant
            0 <= i <= raw@.len(),
            out@.len() == i,
            forall|j: int| 0 <= j < i ==> (#[trigger] out@[j])@ == raw@[j]@,
        decreases raw@.len() - i,
    {
        let piece = vstd::slice::slice_to_vec(raw[i].as_slice());
        out.push(piece);
        i = i + 1;
    }
    proof {
        assert forall|j: int| 0 <= j < raw@.len() implies out.deep_view()[j] == raw.deep_view()[j] by {
            assert(out@[j]@ == raw@[j]@);
            assert(out@[j].deep_view() =~= out@[j]@);
            assert(raw@[j].deep_view() =~= raw@[j]@);
        }
        assert(out.deep_view() =~= raw.deep_view());
    }
    out
}

/// Updating the values of one entry keeps the map well-formed, provided the
/// new value list is not empty.
proof fn lemma_update_keeps_wf(m: Seq<(Seq<u8>, Seq<Seq<u8>>)>, i: int, v: Seq<Seq<u8>>)
    requires
        spec_headers_wf(m),
        0 <= i < m.len(),
        v.len() >= 1,
    ensures
        spec_headers_wf(m.update(i, (m[i].0, v))),
{
}

/// Pushing an entry with a fresh name keeps the map well-formed.
proof fn lemma_push_keeps_wf(m: Seq<(Seq<u8>, Seq<Seq<u8>>)>, name: Seq<u8>, v: Seq<Seq<u8>>)
    requires
        spec_headers_wf(m),
        spec_find_header(m, name) is None,
        spec_is_token(name),
        v.len() >= 1,
    ensures
        spec_headers_wf(m.push((name, v))),
{
    lemma_find_none_means_absent(m, name);
}

/// Removing an entry keeps the map well-formed.
proof fn lemma_remove_keeps_wf(m: Seq<(Seq<u8>, Seq<Seq<u8>>)>, i: int)
    requires
        spec_headers_wf(m),
        0 <= i < m.len(),
    ensures
        spec_headers_wf(m.remove(i)),
{
}

/// A failed lookup means no entry bears the name, in any case.
pub proof fn lemma_find_none_means_absent(m: Seq<(Seq<u8>, Seq<Seq<u8>>)>, name: Seq<u8>)
    requires
        spec_find_header(m, name) is None,
    ensures
        forall|i: int| 0 <= i < m.len() ==> spec_lower(#[trigger] m[i].0) != spec_lower(name),
    decreases m.len(),
{
    if m.len() > 0 {
        lemma_find_none_means_absent(m.drop_first(), name);
        assert forall|i: int| 0 <= i < m.len() implies spec_lower(#[trigger] m[i].0) != spec_lower(
            name,
        ) by {
            if i > 0 {
                assert(m.drop_first()[i - 1] == m[i]);
            }
        }
    }
}

/// A successful lookup points at an entry bearing the name.
pub proof fn lemma_find_some_bounds(m: Seq<(Seq<u8>, Seq<Seq<u8>>)>, name: Seq<u8>)
    requires
        spec_find_header(m, name) is Some,
    ensures
        0 <= spec_find_header(m, name).unwrap() < m.len(),
        spec_lower(m[spec_find_header(m, name).unwrap()].0) == spec_lower(name),
    decreases m.len(),
{
    if m.len() > 0 && spec_lower(m[0].0) != spec_lower(name) {
        lemma_find_some_bounds(m.drop_first(), name);
        let k = spec_find_header(m.drop_first(), name).unwrap();
        assert(m.drop_first()[k] == m[k + 1]);
    }
}


/// Removing the entry a name found leaves the name absent, since names are
/// unique in a well-formed map.
pub proof fn lemma_remove_gone(m: Seq<(Seq<u8>, Seq<Seq<u8>>)>, name: Seq<u8>)
    requires
        spec_headers_wf(m),
    ensures
        spec_find_header(
            (match spec_find_header(m, name) {
                Some(i) => m.remove(i),
                None => m,
            }),
            name,
        ) is None,
{
    match spec_find_header(m, name) {
        None => {},
        Some(i) => {
            lemma_find_some_bounds(m, name);
            let m2 = m.remove(i);
            assert forall|j: int| 0 <= j < m2.len() implies spec_lower((#[trigger] m2[j]).0)
                != spec_lower(name) by {
                if j < i {
                    assert(m2[j] == m[j]);
                } else {
                    assert(m2[j] == m[j + 1]);
                }
            }
            crate::http::head::lemma_absent_means_find_none(m2, name);
        },
    }
}
} // verus!
