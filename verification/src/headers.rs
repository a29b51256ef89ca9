//! The header mapping: case-insensitive names to trimmed values.  Names are
//! stored lowercased, a duplicate name overwrites the previous value, and a
//! raw header block parses only if every line holds a colon.

use vstd::prelude::*;

use crate::error::{ChError, ChErrorSpec};
use crate::text::{
    ascii_lowercase, contains_char, find_char, first_idx, join_spec, lemma_first_idx,
    lemma_to_lower_idempotent, lines_spec, split_lines, str_eq, to_lower, trim, trim_spec,
    trim_end_spec, trim_start_spec,
};

verus! {

/// The headers of a request or response.
#[derive(Debug)]
pub struct Headers {
    entries: Vec<(String, String)>,
}

/// The entries folded into a name-to-value map, later entries overwriting
/// earlier ones.
pub open spec fn map_of(es: Seq<(Seq<char>, Seq<char>)>) -> Map<Seq<char>, Seq<char>>
    decreases es.len(),
{
    if es.len() == 0 {
        Map::empty()
    } else {
        map_of(es.drop_last()).insert(es.last().0, es.last().1)
    }
}

/// Whether some entry has the key.
pub open spec fn has_key(es: Seq<(Seq<char>, Seq<char>)>, k: Seq<char>) -> bool {
    exists|i: int| 0 <= i < es.len() && es[i].0 == k
}

/// Index of the first entry with the key, or `es.len()` if absent.
pub open spec fn key_idx(es: Seq<(Seq<char>, Seq<char>)>, k: Seq<char>) -> int
    decreases es.len(),
{
    if es.len() == 0 {
        0
    } else if es[0].0 == k {
        0
    } else {
        1 + key_idx(es.skip(1), k)
    }
}

pub proof fn lemma_key_idx(es: Seq<(Seq<char>, Seq<char>)>, k: Seq<char>)
    ensures
        0 <= key_idx(es, k) <= es.len(),
        has_key(es, k) ==> key_idx(es, k) < es.len() && es[key_idx(es, k)].0 == k,
        !has_key(es, k) ==> key_idx(es, k) == es.len(),
        forall|j: int| 0 <= j < key_idx(es, k) ==> es[j].0 != k,
    decreases es.len(),
{
    if es.len() == 0 {
    } else if es[0].0 == k {
    } else {
        lemma_key_idx(es.skip(1), k);
        assert forall|i: int| 0 <= i < es.len() && es[i].0 == k implies has_key(es.skip(1), k) by {
            assert(es.skip(1)[i - 1] == es[i]);
        }
        if has_key(es.skip(1), k) {
            assert(es[1 + key_idx(es.skip(1), k)] == es.skip(1)[key_idx(es.skip(1), k)]);
        }
        assert forall|j: int| 0 <= j < key_idx(es, k) implies es[j].0 != k by {
            if j > 0 {
                assert(es.skip(1)[j - 1] == es[j]);
            }
        }
    }
}

/// The map holds a key exactly when some entry has it.
pub proof fn lemma_map_of_contains(es: Seq<(Seq<char>, Seq<char>)>, k: Seq<char>)
    ensures
        map_of(es).contains_key(k) <==> has_key(es, k),
    decreases es.len(),
{
    if es.len() > 0 {
        lemma_map_of_contains(es.drop_last(), k);
        if has_key(es.drop_last(), k) {
            let i = choose|i: int| 0 <= i < es.drop_last().len() && es.drop_last()[i].0 == k;
            assert(es[i] == es.drop_last()[i]);
        }
        if has_key(es, k) && es.last().0 != k {
            let i = choose|i: int| 0 <= i < es.len() && es[i].0 == k;
            assert(es.drop_last()[i] == es[i]);
        }
    }
}

/// With pairwise-distinct keys, each entry's value is the map's value.
pub proof fn lemma_map_of_get(es: Seq<(Seq<char>, Seq<char>)>, i: int)
    requires
        forall|p: int, q: int| 0 <= p < q < es.len() ==> es[p].0 != es[q].0,
        0 <= i < es.len(),
    ensures
        map_of(es).contains_key(es[i].0),
        map_of(es)[es[i].0] == es[i].1,
    decreases es.len(),
{
    assert forall|j: int| 0 <= j < es.len() && es[j].0 == es[i].0 implies j == i by {}
    lemma_map_of_contains(es, es[i].0);
    if i == es.len() - 1 {
    } else {
        assert(es.drop_last()[i] == es[i]);
        lemma_map_of_get(es.drop_last(), i);
    }
}

/// Replacing the entry that holds a key updates the map at that key.
pub proof fn lemma_map_of_update(es: Seq<(Seq<char>, Seq<char>)>, i: int, v: Seq<char>)
    requires
        forall|p: int, q: int| 0 <= p < q < es.len() ==> es[p].0 != es[q].0,
        0 <= i < es.len(),
    ensures
        map_of(es.update(i, (es[i].0, v))) =~= map_of(es).insert(es[i].0, v),
    decreases es.len(),
{
    let k = es[i].0;
    let es2 = es.update(i, (k, v));
    if i == es.len() - 1 {
        assert(es2.drop_last() =~= es.drop_last());
        assert(es2.last() == (k, v));
        assert(map_of(es2) =~= map_of(es).insert(k, v));
    } else {
        assert(es2.drop_last() =~= es.drop_last().update(i, (k, v)));
        assert(es.drop_last()[i] == es[i]);
        lemma_map_of_update(es.drop_last(), i, v);
        assert(es2.last() == es.last());
        // k differs from the last key, so the two inserts commute.
        assert(es.last().0 != k);
        assert(map_of(es2) =~= map_of(es).insert(k, v));
    }
}

/// Removing the entry that holds a key removes the key from the map.
pub proof fn lemma_map_of_remove(es: Seq<(Seq<char>, Seq<char>)>, i: int)
    requires
        forall|p: int, q: int| 0 <= p < q < es.len() ==> es[p].0 != es[q].0,
        0 <= i < es.len(),
    ensures
        map_of(es.remove(i)) =~= map_of(es).remove(es[i].0),
    decreases es.len(),
{
    let k = es[i].0;
    if i == es.len() - 1 {
        assert(es.remove(i) =~= es.drop_last());
        assert forall|q: int| 0 <= q < es.drop_last().len() implies es.drop_last()[q].0 != k by {
            assert(es.drop_last()[q] == es[q]);
        }
        lemma_map_of_contains(es.drop_last(), k);
        assert(map_of(es.drop_last()) =~= map_of(es.drop_last()).insert(k, es[i].1).remove(k));
    } else {
        let es2 = es.remove(i);
        assert(es2.drop_last() =~= es.drop_last().remove(i));
        assert(es.drop_last()[i] == es[i]);
        lemma_map_of_remove(es.drop_last(), i);
        assert(es2.last() == es.last());
        assert(es.last().0 != k);
        assert(map_of(es2) =~= map_of(es).remove(k));
    }
}

impl View for Headers {
    type V = Map<Seq<char>, Seq<char>>;

    open spec fn view(&self) -> Map<Seq<char>, Seq<char>> {
        map_of(self.entry_seq())
    }
}

impl Headers {
    /// The stored entries, in insertion order, as character sequences.
    pub closed spec fn entry_seq(&self) -> Seq<(Seq<char>, Seq<char>)> {
        self.entries.deep_view()
    }

    /// Every stored name is lowercase and no name repeats.
    pub open spec fn wf(&self) -> bool {
        let es = self.entry_seq();
        (forall|i: int| 0 <= i < es.len() ==> #[trigger] es[i].0 == to_lower(es[i].0))
            && (forall|p: int, q: int| 0 <= p < q < es.len() ==> es[p].0 != es[q].0)
    }

    /// An empty mapping.
    pub fn new() -> (r: Headers)
        ensures
            r@ == Map::<Seq<char>, Seq<char>>::empty(),
            r.entry_seq() == Seq::<(Seq<char>, Seq<char>)>::empty(),
            r.wf(),
    {
        let r = Headers { entries: Vec::new() };
        proof {
            assert(r.entry_seq() =~= Seq::<(Seq<char>, Seq<char>)>::empty());
        }
        r
    }

    /// The entries as owned pairs, in storage order.
    pub fn iter(&self) -> (r: Vec<(String, String)>)
        ensures
            r.deep_view() == self.entry_seq(),
    {
        let mut out: Vec<(String, String)> = Vec::new();
        let mut i: usize = 0;
        while i < self.entries.len()
            invariant
                0 <= i <= self.entries.len(),
                out.deep_view() =~= self.entry_seq().take(i as int),
            decreases self.entries.len() - i,
        {
            let k = self.entries[i].0.clone();
            let v = self.entries[i].1.clone();
            let ghost prev = out.deep_view();
            out.push((k, v));
            proof {
                assert(out.deep_view() =~= prev.push((k@, v@)));
                assert(out.deep_view() =~= self.entry_seq().take(i + 1));
            }
            i += 1;
        }
        proof {
            assert(self.entry_seq().take(self.entries@.len() as int) =~= self.entry_seq());
        }
        out
    }

    /// A copy with the same entries.
    pub fn duplicate(&self) -> (r: Headers)
        ensures
            r.entry_seq() == self.entry_seq(),
            r@ == self@,
            self.wf() ==> r.wf(),
    {
        Headers { entries: self.iter() }
    }

    /// Case-insensitive lookup.
    pub fn get(&self, key: &str) -> (r: Option<String>)
        requires
            self.wf(),
        ensures
            self@.contains_key(to_lower(key@)) ==> (r matches Some(v) && v@ == self@[to_lower(
                key@,
            )]),
            !self@.contains_key(to_lower(key@)) ==> r is None,
    {
        let lk = ascii_lowercase(key);
        let mut i: usize = 0;
        while i < self.entries.len()
            invariant
                0 <= i <= self.entries.len(),
                self.wf(),
                lk@ == to_lower(key@),
                forall|j: int| 0 <= j < i ==> self.entry_seq()[j].0 != lk@,
            decreases self.entries.len() - i,
        {
            if str_eq(self.entries[i].0.as_str(), lk.as_str()) {
                proof {
                    lemma_map_of_get(self.entry_seq(), i as int);
                }
                return Some(self.entries[i].1.clone());
            }
            i += 1;
        }
        proof {
            lemma_map_of_contains(self.entry_seq(), lk@);
        }
        None
    }

    /// Insert under the lowercased name, overwriting and returning any
    /// previous value.
    pub fn insert(&mut self, key: &str, value: &str) -> (prev: Option<String>)
        requires
            old(self).wf(),
        ensures
            final(self).wf(),
            final(self)@ == old(self)@.insert(to_lower(key@), value@),
            final(self).entry_seq() == (if has_key(old(self).entry_seq(), to_lower(key@)) {
                old(self).entry_seq().update(
                    key_idx(old(self).entry_seq(), to_lower(key@)),
                    (to_lower(key@), value@),
                )
            } else {
                old(self).entry_seq().push((to_lower(key@), value@))
            }),
            old(self)@.contains_key(to_lower(key@)) ==> (prev matches Some(p) && p@ == old(
                self,
            )@[to_lower(key@)]),
            !old(self)@.contains_key(to_lower(key@)) ==> prev is None,
    {
        let ghost es = self.entry_seq();
        let ghost k = to_lower(key@);
        let lk = ascii_lowercase(key);
        let lv = String::from_str(value);
        let mut i: usize = 0;
        while i < self.entries.len()
            invariant
                0 <= i <= self.entries.len(),
                self.wf(),
                self.entry_seq() == es,
                es == old(self).entry_seq(),
                self.entries@.len() == es.len(),
                k == to_lower(key@),
                lk@ == k,
                lv@ == value@,
                forall|j: int| 0 <= j < i ==> es[j].0 != k,
            decreases self.entries.len() - i,
        {
            if str_eq(self.entries[i].0.as_str(), lk.as_str()) {
                let old_pair = self.entries.remove(i);
                self.entries.insert(i, (lk, lv));
                proof {
                    assert(k == es[i as int].0);
                    assert(self.entry_seq() =~= es.update(i as int, (k, value@)));
                    lemma_key_idx(es, k);
                    assert(has_key(es, k));
                    assert(key_idx(es, k) == i) by {
                        if key_idx(es, k) < i {
                            assert(es[key_idx(es, k)].0 != k);
                        }
                    }
                    lemma_map_of_update(es, i as int, value@);
                    lemma_map_of_get(es, i as int);
                    lemma_to_lower_idempotent(key@);
                    assert forall|p: int, q: int|
                        0 <= p < q < self.entry_seq().len() implies self.entry_seq()[p].0
                        != self.entry_seq()[q].0 by {
                        assert(es[p].0 != es[q].0);
                    }
                }
                return Some(old_pair.1);
            }
            i += 1;
        }
        let ghost prev_seq = self.entry_seq();
        self.entries.push((lk, lv));
        proof {
            assert(self.entry_seq() =~= prev_seq.push((k, value@)));
            assert(self.entry_seq().drop_last() =~= prev_seq);
            lemma_map_of_contains(es, k);
            lemma_to_lower_idempotent(key@);
            assert forall|p: int, q: int|
                0 <= p < q < self.entry_seq().len() implies self.entry_seq()[p].0
                != self.entry_seq()[q].0 by {
                if q < es.len() {
                    assert(es[p].0 != es[q].0);
                }
            }
        }
        None
    }

    /// Remove under the lowercased name, returning any previous value.
    pub fn remove(&mut self, key: &str) -> (prev: Option<String>)
        requires
            old(self).wf(),
        ensures
            final(self).wf(),
            final(self)@ == old(self)@.remove(to_lower(key@)),
            old(self)@.contains_key(to_lower(key@)) ==> (prev matches Some(p) && p@ == old(
                self,
            )@[to_lower(key@)]),
            !old(self)@.contains_key(to_lower(key@)) ==> prev is None,
    {
        let ghost es = self.entry_seq();
        let ghost k = to_lower(key@);
        let lk = ascii_lowercase(key);
        let mut i: usize = 0;
        while i < self.entries.len()
            invariant
                0 <= i <= self.entries.len(),
                self.wf(),
                self.entry_seq() == es,
                es == old(self).entry_seq(),
                self.entries@.len() == es.len(),
                k == to_lower(key@),
                lk@ == k,
                forall|j: int| 0 <= j < i ==> es[j].0 != k,
            decreases self.entries.len() - i,
        {
            if str_eq(self.entries[i].0.as_str(), lk.as_str()) {
                let old_pair = self.entries.remove(i);
                proof {
                    assert(self.entry_seq() =~= es.remove(i as int));
                    lemma_map_of_remove(es, i as int);
                    lemma_map_of_get(es, i as int);
                    assert forall|p: int, q: int|
                        0 <= p < q < self.entry_seq().len() implies self.entry_seq()[p].0
                        != self.entry_seq()[q].0 by {
                        let ghost es2 = es.remove(i as int);
                        if q < i {
                            assert(es2[p] == es[p] && es2[q] == es[q]);
                        } else if p < i {
                            assert(es2[p] == es[p] && es2[q] == es[q + 1]);
                        } else {
                            assert(es2[p] == es[p + 1] && es2[q] == es[q + 1]);
                        }
                    }
                    assert forall|j: int|
                        0 <= j < self.entry_seq().len() implies #[trigger] self.entry_seq()[j].0
                        == to_lower(self.entry_seq()[j].0) by {
                        let ghost es2 = es.remove(i as int);
                        if j < i {
                            assert(es2[j] == es[j]);
                        } else {
                            assert(es2[j] == es[j + 1]);
                        }
                    }
                }
                return Some(old_pair.1);
            }
            i += 1;
        }
        proof {
            lemma_map_of_contains(es, k);
            assert(final(self)@ =~= old(self)@.remove(k));
        }
        None
    }
}

/// The lowercased part of a header line before its first colon.
pub open spec fn line_key(l: Seq<char>) -> Seq<char> {
    to_lower(l.take(first_idx(l, ':')))
}

/// The trimmed part of a header line after its first colon.
pub open spec fn line_val(l: Seq<char>) -> Seq<char> {
    trim_spec(l.skip(first_idx(l, ':') + 1))
}

/// Header lines folded into a map, later lines overwriting earlier ones.
pub open spec fn lines_map(ls: Seq<Seq<char>>) -> Map<Seq<char>, Seq<char>>
    decreases ls.len(),
{
    if ls.len() == 0 {
        Map::empty()
    } else {
        lines_map(ls.drop_last()).insert(line_key(ls.last()), line_val(ls.last()))
    }
}

pub open spec fn all_have_colon(ls: Seq<Seq<char>>) -> bool {
    forall|i: int| 0 <= i < ls.len() ==> contains_char(#[trigger] ls[i], ':')
}

/// What parsing a raw header block yields: the block is trimmed; an empty
/// block is rejected, a block with a colon-less line is rejected carrying the
/// trimmed block, and otherwise every line becomes an entry.
pub open spec fn spec_parse_headers(block: Seq<char>) -> Result<
    Map<Seq<char>, Seq<char>>,
    ChErrorSpec,
> {
    let t = trim_spec(block);
    if t.len() == 0 {
        Err(ChErrorSpec::EmptyHeader)
    } else if !all_have_colon(lines_spec(t)) {
        Err(ChErrorSpec::HeaderParse(t))
    } else {
        Ok(lines_map(lines_spec(t)))
    }
}

impl Headers {
    /// Parse a raw header block: both CRLF and LF line endings are accepted,
    /// an empty block and a block with a line lacking `:` are rejected.
    pub fn parse(block: &str) -> (r: Result<Headers, ChError>)
        ensures
            ({
                let sr = spec_parse_headers(block@);
                match r {
                    Ok(h) => sr == Ok::<Map<Seq<char>, Seq<char>>, ChErrorSpec>(h@) && h.wf(),
                    Err(e) => sr == Err::<Map<Seq<char>, Seq<char>>, ChErrorSpec>(e@),
                }
            }),
            trim_spec(block@).len() == 0 ==> r == Err::<Headers, ChError>(ChError::EmptyHeader),
            trim_spec(block@).len() > 0 && !all_have_colon(lines_spec(trim_spec(block@))) ==> (
            r matches Err(e) && e@ == ChErrorSpec::HeaderParse(trim_spec(block@))),
    {
        let t = trim(block);
        if t.unicode_len() == 0 {
            return Err(ChError::EmptyHeader);
        }
        let lines = split_lines(t);
        let ghost ls = lines_spec(t@);
        let mut h = Headers::new();
        let mut i: usize = 0;
        while i < lines.len()
            invariant
                0 <= i <= lines.len(),
                lines.deep_view() == ls,
                lines@.len() == ls.len(),
                ls == lines_spec(t@),
                t@ == trim_spec(block@),
                t@.len() > 0,
                forall|j: int| 0 <= j < i ==> contains_char(#[trigger] ls[j], ':'),
                h@ == lines_map(ls.take(i as int)),
                h.wf(),
            decreases lines.len() - i,
        {
            let line = lines[i].as_str();
            let llen = line.unicode_len();
            match find_char(line, ':') {
                None => {
                    proof {
                        assert(lines.deep_view()[i as int] == ls[i as int]);
                        assert(!contains_char(ls[i as int], ':'));
                    }
                    return Err(ChError::HeaderParse(String::from_str(t)));
                },
                Some(idx) => {
                    proof {
                        lemma_first_idx(line@, ':');
                    }
                    let key = line.substring_char(0, idx);
                    let val_raw = line.substring_char(idx + 1, llen);
                    let val = trim(val_raw);
                    h.insert(key, val);
                    proof {
                        assert(key@ =~= ls[i as int].take(first_idx(ls[i as int], ':')));
                        assert(val_raw@ =~= ls[i as int].skip(first_idx(ls[i as int], ':') + 1));
                        assert(ls.take(i + 1).drop_last() =~= ls.take(i as int));
                        assert(ls.take(i + 1).last() == ls[i as int]);
                    }
                },
            }
            i += 1;
        }
        proof {
            assert(ls.take(ls.len() as int) =~= ls);
        }
        Ok(h)
    }

    /// Render every entry as `name: value` followed by CRLF, in storage
    /// order.
    pub fn serialize(&self) -> (r: String)
        ensures
            r@ == spec_serialize(self.entry_seq()),
    {
        let mut out = String::new();
        let mut i: usize = 0;
        while i < self.entries.len()
            invariant
                0 <= i <= self.entries.len(),
                out@ == spec_serialize(self.entry_seq().take(i as int)),
            decreases self.entries.len() - i,
        {
            let ghost es = self.entry_seq();
            out.append(self.entries[i].0.as_str());
            out.append(": ");
            out.append(self.entries[i].1.as_str());
            out.append("\r\n");
            proof {
                assert(es.take(i + 1).drop_last() =~= es.take(i as int));
                assert(es.take(i + 1).last() == es[i as int]);
                assert(out@ =~= spec_serialize(es.take(i as int)) + header_line(es[i as int]));
            }
            i += 1;
        }
        proof {
            assert(self.entry_seq().take(self.entries@.len() as int) =~= self.entry_seq());
        }
        out
    }
}

/// One serialized header line: `name: value` and CRLF.
pub open spec fn header_line(e: (Seq<char>, Seq<char>)) -> Seq<char> {
    e.0 + ": "@ + e.1 + "\r\n"@
}

/// The serialized form of the entries, in order.
pub open spec fn spec_serialize(es: Seq<(Seq<char>, Seq<char>)>) -> Seq<char>
    decreases es.len(),
{
    if es.len() == 0 {
        Seq::empty()
    } else {
        spec_serialize(es.drop_last()) + header_line(es.last())
    }
}

/// A raw header block built from name/value pairs: one `name: value` line
/// per pair, joined by CRLF or by LF.
pub open spec fn header_block(pairs: Seq<(Seq<char>, Seq<char>)>, crlf: bool) -> Seq<char> {
    join_spec(
        pairs.map_values(|p: (Seq<char>, Seq<char>)| p.0 + ": "@ + p.1),
        if crlf {
            "\r\n"@
        } else {
            "\n"@
        },
    )
}

/// With pairwise-distinct keys, each line's value is the parsed map's value.
proof fn lemma_lines_map_get(ls: Seq<Seq<char>>, i: int)
    requires
        forall|p: int, q: int| 0 <= p < q < ls.len() ==> line_key(ls[p]) != line_key(ls[q]),
        0 <= i < ls.len(),
    ensures
        lines_map(ls).contains_key(line_key(ls[i])),
        lines_map(ls)[line_key(ls[i])] == line_val(ls[i]),
    decreases ls.len(),
{
    if i == ls.len() - 1 {
    } else {
        assert(ls.drop_last()[i] == ls[i]);
        assert forall|p: int, q: int|
            0 <= p < q < ls.drop_last().len() implies line_key(ls.drop_last()[p]) != line_key(
            ls.drop_last()[q],
        ) by {
            assert(ls.drop_last()[p] == ls[p] && ls.drop_last()[q] == ls[q]);
        }
        lemma_lines_map_get(ls.drop_last(), i);
        assert(line_key(ls.last()) != line_key(ls[i]));
    }
}

/// Law: a block of `name: value` lines, joined by either CRLF or LF, parses,
/// and looking each name up returns exactly its value.  The lookup key is
/// the lowercased name, which is what `get` queries with any casing of the
/// name.  Names must be non-empty, free of whitespace and colons, and
/// pairwise distinct regardless of case; values must be non-empty, already
/// trimmed, and free of line feeds.
pub proof fn lemma_header_block_round_trip(pairs: Seq<(Seq<char>, Seq<char>)>, crlf: bool)
    requires
        pairs.len() > 0,
        forall|i: int| 0 <= i < pairs.len() ==> (#[trigger] pairs[i].0).len() > 0,
        forall|i: int, k: int|
            0 <= i < pairs.len() && 0 <= k < pairs[i].0.len() ==> !crate::text::is_ws(
                #[trigger] pairs[i].0[k],
            ) && pairs[i].0[k] != ':',
        forall|i: int, j: int|
            0 <= i < j < pairs.len() ==> to_lower(pairs[i].0) != to_lower(pairs[j].0),
        forall|i: int| 0 <= i < pairs.len() ==> (#[trigger] pairs[i].1).len() > 0,
        forall|i: int| 0 <= i < pairs.len() ==> trim_spec(#[trigger] pairs[i].1) == pairs[i].1,
        forall|i: int, k: int|
            0 <= i < pairs.len() && 0 <= k < pairs[i].1.len() ==> #[trigger] pairs[i].1[k] != '\n',
    ensures
        spec_parse_headers(header_block(pairs, crlf)) matches Ok(m) && (forall|i: int|
            0 <= i < pairs.len() ==> m.contains_key(to_lower(#[trigger] pairs[i].0))
                && m[to_lower(pairs[i].0)] == pairs[i].1),
{
    reveal_strlit(": ");
    let pieces = pairs.map_values(|p: (Seq<char>, Seq<char>)| p.0 + ": "@ + p.1);
    let block = header_block(pairs, crlf);
    assert(": "@.len() == 2 && ": "@[0] == ':' && ": "@[1] == ' ');
    // Shape of each line: the name, a colon, a space, the value.
    assert forall|i: int| 0 <= i < pieces.len() implies {
        &&& (#[trigger] pieces[i]).len() == pairs[i].0.len() + 2 + pairs[i].1.len()
        &&& pieces[i].len() > 0
        &&& pieces[i].last() != '\r'
        &&& first_idx(pieces[i], ':') == pairs[i].0.len()
        &&& line_key(pieces[i]) == to_lower(pairs[i].0)
        &&& line_val(pieces[i]) == pairs[i].1
        &&& contains_char(pieces[i], ':')
    } by {
        let name = pairs[i].0;
        let value = pairs[i].1;
        let l = pieces[i];
        assert(l == name + ": "@ + value);
        crate::text::lemma_trimmed_ends(value);
        assert(l.last() == value.last());
        assert(l[name.len() as int] == ':');
        assert forall|k: int| 0 <= k < name.len() implies l[k] != ':' by {
            assert(l[k] == name[k]);
        }
        crate::text::lemma_first_idx_unique(l, ':', name.len() as int);
        assert(l.take(name.len() as int) =~= name);
        assert(l.skip(name.len() + 1int) =~= seq![' '] + value);
        let tail = seq![' '] + value;
        assert(tail.skip(1) =~= value);
        assert(trim_start_spec(tail) == trim_start_spec(value));
        assert(trim_start_spec(value) == value);
        assert(trim_spec(tail) == trim_end_spec(value));
        assert(trim_end_spec(value) == value) by {
            assert(trim_spec(value) == value);
            assert(trim_start_spec(value) == value);
        }
    }
    assert forall|i: int, k: int|
        0 <= i < pieces.len() && 0 <= k < pieces[i].len() implies #[trigger] pieces[i][k]
        != '\n' by {
        let name = pairs[i].0;
        let value = pairs[i].1;
        let l = pieces[i];
        assert(l == name + ": "@ + value);
        if k < name.len() {
            assert(l[k] == name[k]);
        } else if k < name.len() + 2 {
            assert(l[k] == ": "@[k - name.len()]);
        } else {
            assert(l[k] == value[k - name.len() - 2]);
        }
    }
    crate::text::lemma_join_lines(pieces, crlf);
    assert(lines_spec(block) == pieces);
    // The block trims to itself: it starts with a name character and ends
    // with a value character.
    assert(block[0] == pieces[0][0]);
    assert(pieces[0][0] == pairs[0].0[0]);
    assert(block.last() == pieces.last().last());
    assert(pieces.last() == pieces[pieces.len() - 1]);
    crate::text::lemma_trimmed_ends(pairs[pairs.len() - 1].1);
    crate::text::lemma_trim_noop(block);
    assert(all_have_colon(pieces));
    assert(spec_parse_headers(block) == Ok::<Map<Seq<char>, Seq<char>>, ChErrorSpec>(
        lines_map(pieces),
    ));
    let m = lines_map(pieces);
    assert forall|i: int|
        0 <= i < pairs.len() implies m.contains_key(to_lower(#[trigger] pairs[i].0)) && m[to_lower(
        pairs[i].0,
    )] == pairs[i].1 by {
        assert forall|p: int, q: int|
            0 <= p < q < pieces.len() implies line_key(pieces[p]) != line_key(pieces[q]) by {
            assert(line_key(pieces[p]) == to_lower(pairs[p].0));
            assert(line_key(pieces[q]) == to_lower(pairs[q].0));
        }
        lemma_lines_map_get(pieces, i);
    }
}

impl core::str::FromStr for Headers {
    type Err = ChError;

    fn from_str(s: &str) -> Result<Headers, ChError> {
        Headers::parse(s)
    }
}

impl Default for Headers {
    /// An empty mapping.
    fn default() -> (r: Self)
        ensures
            r@ == Map::<Seq<char>, Seq<char>>::empty(),
            r.entry_seq() == Seq::<(Seq<char>, Seq<char>)>::empty(),
            r.wf(),
    {
        Headers::new()
    }
}

} // verus!
