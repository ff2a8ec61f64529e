use vstd::prelude::*;

use crate::error::GndError;
use crate::reader::{le_u32, read_bytes, read_u32};

verus! {

/// Index of the first zero byte of `s` at or after `i`, or `s.len()` when there is none.
pub open spec fn first_zero_from(s: Seq<u8>, i: int) -> int
    decreases s.len() - i,
{
    if i < 0 || i >= s.len() {
        s.len() as int
    } else if s[i] == 0 {
        i
    } else {
        first_zero_from(s, i + 1)
    }
}

/// A fixed-width name field holds the name up to its first zero byte.
pub open spec fn name_of(slot: Seq<u8>) -> Seq<u8> {
    slot.subrange(0, first_zero_from(slot, 0))
}

/// The names in first-seen order, each once.
pub open spec fn dedup(raw: Seq<Seq<u8>>) -> Seq<Seq<u8>>
    decreases raw.len(),
{
    if raw.len() == 0 {
        Seq::empty()
    } else {
        let d = dedup(raw.drop_last());
        if d.contains(raw.last()) {
            d
        } else {
            d.push(raw.last())
        }
    }
}

/// No two entries of `s` are equal.
pub open spec fn no_duplicates(s: Seq<Seq<u8>>) -> bool {
    forall|i: int, j: int| 0 <= i < s.len() && 0 <= j < s.len() && i != j ==> s[i] != s[j]
}

/// What a sequence of byte vectors holds.
pub open spec fn names_view(v: Seq<Vec<u8>>) -> Seq<Seq<u8>> {
    v.map_values(|n: Vec<u8>| n@)
}

/// The `i`-th name of a texture table whose `count` fields of `len` bytes start at `start`.
pub open spec fn raw_name(s: Seq<u8>, start: int, len: int, i: int) -> Seq<u8> {
    name_of(s.subrange(start + i * len, start + (i + 1) * len))
}

/// All names of such a table, in file order.
pub open spec fn raw_names(s: Seq<u8>, start: int, len: int, count: int) -> Seq<Seq<u8>> {
    Seq::new(count as nat, |i: int| raw_name(s, start, len, i))
}

/// A texture table as it is used: the distinct names, and for every slot of the file the index
/// of its name among them.
#[derive(Debug)]
pub struct TextureTable {
    pub names: Vec<Vec<u8>>,
    pub indices: Vec<usize>,
}

impl TextureTable {
    /// The table is the deduplication of `raw`, and every slot refers to its own name.
    pub open spec fn is_table_of(&self, raw: Seq<Seq<u8>>) -> bool {
        &&& names_view(self.names@) == dedup(raw)
        &&& no_duplicates(names_view(self.names@))
        &&& self.indices@.len() == raw.len()
        &&& forall|i: int|
            0 <= i < raw.len() ==> {
                &&& self.indices@[i] < self.names@.len()
                &&& self.names@[self.indices@[i] as int]@ == raw[i]
            }
    }
}

/// Whether two byte vectors are equal.
pub fn bytes_eq(a: &Vec<u8>, b: &Vec<u8>) -> (r: bool)
    ensures
        r == (a@ == b@),
{
    if a.len() != b.len() {
        return false;
    }
    let mut i: usize = 0;
    while i < a.len()
        invariant
            a@.len() == b@.len(),
            i <= a@.len(),
            forall|j: int| 0 <= j < i ==> a@[j] == b@[j],
        decreases a@.len() - i,
    {
        if a[i] != b[i] {
            return false;
        }
        i = i + 1;
    }
    assert(a@ =~= b@);
    true
}

/// Position of `name` in `names`, if it is there.
fn find_name(names: &Vec<Vec<u8>>, name: &Vec<u8>) -> (r: Option<usize>)
    ensures
        r.is_some() ==> r.unwrap() < names@.len() && names@[r.unwrap() as int]@ == name@,
        r.is_none() ==> !names_view(names@).contains(name@),
{
    let mut i: usize = 0;
    while i < names.len()
        invariant
            i <= names@.len(),
            forall|j: int| 0 <= j < i ==> names@[j]@ != name@,
        decreases names@.len() - i,
    {
        if bytes_eq(&names[i], name) {
            return Some(i);
        }
        i = i + 1;
    }
    proof {
        if names_view(names@).contains(name@) {
            let j = choose|j: int| 0 <= j < names_view(names@).len() && names_view(names@)[j] == name@;
            assert(names@[j]@ == name@);
        }
    }
    None
}

/// Gives every distinct name a dense index in the order in which names are first seen, and maps
/// every raw name to its index.
pub fn dedup_names(raw: &Vec<Vec<u8>>) -> (t: TextureTable)
    ensures
        t.is_table_of(names_view(raw@)),
{
    let mut names: Vec<Vec<u8>> = Vec::new();
    let mut indices: Vec<usize> = Vec::new();
    let mut i: usize = 0;
    while i < raw.len()
        invariant
            i <= raw@.len(),
            names_view(names@) == dedup(names_view(raw@).take(i as int)),
            no_duplicates(names_view(names@)),
            indices@.len() == i,
            forall|k: int|
                0 <= k < i ==> {
                    &&& indices@[k] < names@.len()
                    &&& names@[indices@[k] as int]@ == raw@[k]@
                },
        decreases raw@.len() - i,
    {
        let ghost rv = names_view(raw@);
        assert(rv.take(i + 1).drop_last() == rv.take(i as int));
        assert(rv.take(i + 1).last() == raw@[i as int]@);
        match find_name(&names, &raw[i]) {
            Some(j) => {
                assert(names_view(names@)[j as int] == raw@[i as int]@);
                indices.push(j);
            },
            None => {
                let ghost old_names = names@;
                let n = raw[i].clone();
                names.push(n);
                assert(names_view(names@) == names_view(old_names).push(raw@[i as int]@));
                indices.push(names.len() - 1);
            },
        }
        i = i + 1;
    }
    assert(names_view(raw@).take(i as int) == names_view(raw@));
    TextureTable { names, indices }
}

/// Cuts a fixed-width name field at its first zero byte.
pub fn trim_name(slot: Vec<u8>) -> (r: Vec<u8>)
    ensures
        r@ == name_of(slot@),
{
    let mut n: usize = 0;
    while n < slot.len() && slot[n] != 0
        invariant
            n <= slot@.len(),
            first_zero_from(slot@, n as int) == first_zero_from(slot@, 0),
        decreases slot@.len() - n,
    {
        n = n + 1;
    }
    let mut r: Vec<u8> = Vec::with_capacity(n);
    let mut i: usize = 0;
    while i < n
        invariant
            n <= slot@.len(),
            i <= n,
            r@ == slot@.subrange(0, i as int),
        decreases n - i,
    {
        r.push(slot[i]);
        assert(slot@.subrange(0, i + 1) == slot@.subrange(0, i as int).push(slot@[i as int]));
        i = i + 1;
    }
    r
}

/// Offset just past a texture table that starts at `pos`, when its header can be read.
pub open spec fn texture_table_end(s: Seq<u8>, pos: int) -> int {
    pos + 8 + le_u32(s, pos) * le_u32(s, pos + 4)
}

/// Reads a texture table at `*pos`: `count: u32`, `len: u32`, then `count` names of `len` bytes.
/// Fails with a format error when the input ends before the table does.
pub fn load_textures(buf: &[u8], pos: &mut usize) -> (r: Result<TextureTable, GndError>)
    ensures
        r.is_ok() <==> *old(pos) + 8 <= buf@.len() && texture_table_end(buf@, *old(pos) as int)
            <= buf@.len(),
        r.is_err() ==> r == Err::<TextureTable, GndError>(GndError::FormatError),
        r.is_ok() ==> {
            &&& *final(pos) == texture_table_end(buf@, *old(pos) as int)
            &&& r.unwrap().is_table_of(
                raw_names(
                    buf@,
                    *old(pos) + 8,
                    le_u32(buf@, *old(pos) + 4),
                    le_u32(buf@, *old(pos) as int),
                ),
            )
        },
{
    let start = *pos;
    let blen = buf.len();
    let count = match read_u32(buf, start) {
        Some(c) => c,
        None => return Err(GndError::FormatError),
    };
    let len = match read_u32(buf, start + 4) {
        Some(l) => l,
        None => return Err(GndError::FormatError),
    };
    assert(count as int * len as int <= u32::MAX as int * u32::MAX as int) by (nonlinear_arith)
        requires
            count <= u32::MAX,
            len <= u32::MAX,
    ;
    let total = (count as u64) * (len as u64);
    let rest = (buf.len() - (start + 8)) as u64;
    if rest < total {
        return Err(GndError::FormatError);
    }
    let first = start + 8;
    let ghost s = buf@;
    let mut raw: Vec<Vec<u8>> = Vec::new();
    let mut i: u32 = 0;
    while i < count
        invariant
            i <= count,
            first as int + count as int * len as int <= s.len(),
            s == buf@,
            s.len() == blen,
            raw@.len() == i,
            forall|k: int| 0 <= k < i ==> raw@[k]@ == raw_name(s, first as int, len as int, k),
        decreases count - i,
    {
        proof {
            assert((i as int + 1) * len as int <= count as int * len as int) by (nonlinear_arith)
                requires
                    i < count,
            ;
            assert((i as int + 1) * len as int == i as int * len as int + len as int) by (
            nonlinear_arith);
        }
        let at = first + (i as usize) * (len as usize);
        let slot = read_bytes(buf, at, len as usize).unwrap();
        raw.push(trim_name(slot));
        i = i + 1;
    }
    assert(names_view(raw@) == raw_names(s, first as int, len as int, count as int));
    *pos = first + (total as usize);
    Ok(dedup_names(&raw))
}

/// Deduplication keeps each name once, loses none, and never lengthens the list.
pub proof fn lemma_dedup(raw: Seq<Seq<u8>>)
    ensures
        no_duplicates(dedup(raw)),
        forall|i: int| 0 <= i < raw.len() ==> dedup(raw).contains(#[trigger] raw[i]),
        forall|j: int| 0 <= j < dedup(raw).len() ==> raw.contains(#[trigger] dedup(raw)[j]),
        dedup(raw).len() <= raw.len(),
    decreases raw.len(),
{
    if raw.len() > 0 {
        let rest = raw.drop_last();
        lemma_dedup(rest);
        let d = dedup(rest);
        assert forall|i: int| 0 <= i < raw.len() implies dedup(raw).contains(#[trigger] raw[i]) by {
            if i < raw.len() - 1 {
                assert(rest[i] == raw[i]);
                let k = choose|k: int| 0 <= k < d.len() && d[k] == rest[i];
                if !d.contains(raw.last()) {
                    assert(d.push(raw.last())[k] == raw[i]);
                }
            } else if !d.contains(raw.last()) {
                assert(d.push(raw.last())[d.len() as int] == raw[i]);
            }
        }
        assert forall|j: int| 0 <= j < dedup(raw).len() implies raw.contains(
            #[trigger] dedup(raw)[j],
        ) by {
            if j < d.len() {
                assert(rest.contains(d[j]));
                let k = choose|k: int| 0 <= k < rest.len() && rest[k] == d[j];
                assert(raw[k] == d[j]);
            } else {
                assert(raw[raw.len() - 1] == dedup(raw)[j]);
            }
        }
    }
}

} // verus!
