//! Manifest content: the structured mapping that a tree-manifest blob's
//! bytes decode into. Each line of the blob is a child path, a NUL byte,
//! forty lowercase hex digits naming a content id, an optional one-byte
//! type flag, and a newline.

use vstd::prelude::*;

use crate::bytes_util::{find_byte, spec_find_byte, subvec};
use crate::hash::{NodeHash, HASH_LEN};

verus! {

/// The type of a manifest child entry.
#[derive(Clone, Copy, PartialEq, Eq, Structural, Debug)]
pub enum EntryType {
    File,
    Executable,
    Symlink,
    Tree,
}

/// Mathematical model of the details of one child entry.
pub ghost struct DetailsView {
    pub id: Seq<u8>,
    pub flag: EntryType,
}

/// Content id and type of one child entry.
pub struct Details {
    pub id: NodeHash,
    pub flag: EntryType,
}

impl View for Details {
    type V = DetailsView;

    open spec fn view(&self) -> DetailsView {
        DetailsView { id: self.id@, flag: self.flag }
    }
}

impl Details {
    pub open spec fn wf(&self) -> bool {
        self.id.wf()
    }

    pub fn new(id: NodeHash, flag: EntryType) -> (r: Details)
        ensures
            r@ == (DetailsView { id: id@, flag }),
            id.wf() ==> r.wf(),
    {
        Details { id, flag }
    }
}

/// The parsed structure of a manifest blob: child path to content details,
/// in the order the lines stand in the blob.
pub struct ManifestContent {
    pub files: Vec<(Vec<u8>, Details)>,
}

impl View for ManifestContent {
    type V = Seq<(Seq<u8>, DetailsView)>;

    open spec fn view(&self) -> Seq<(Seq<u8>, DetailsView)> {
        Seq::new(self.files@.len(), |i: int| (self.files@[i].0@, self.files@[i].1@))
    }
}

/// Whether `c` is a lowercase hex digit.
pub open spec fn is_hex_digit(c: u8) -> bool {
    (48 <= c <= 57) || (97 <= c <= 102)
}

/// The numeric value of a lowercase hex digit.
pub open spec fn hex_value(c: u8) -> int {
    if 48 <= c <= 57 {
        c - 48
    } else {
        c - 87
    }
}

/// The byte encoded by two hex digits.
pub open spec fn spec_decode_hex_byte(hi: u8, lo: u8) -> u8 {
    (hex_value(hi) * 16 + hex_value(lo)) as u8
}

/// The twenty bytes encoded by forty hex digits starting at `start`.
pub open spec fn spec_decode_hex_id(bytes: Seq<u8>, start: int) -> Seq<u8> {
    Seq::new(HASH_LEN as nat, |i: int| spec_decode_hex_byte(bytes[start + 2 * i], bytes[start + 2 * i + 1]))
}

/// The hex digit for a nibble value.
pub open spec fn hex_char(v: int) -> u8 {
    if v < 10 {
        (48 + v) as u8
    } else {
        (87 + v) as u8
    }
}

/// The forty hex digits encoding a twenty-byte id.
pub open spec fn spec_hex_of(id: Seq<u8>) -> Seq<u8> {
    Seq::new(2 * HASH_LEN as nat, |i: int| if i % 2 == 0 {
        hex_char(id[i / 2] as int / 16)
    } else {
        hex_char(id[i / 2] as int % 16)
    })
}

/// The type named by a flag byte, if any.
pub open spec fn flag_of(c: u8) -> Option<EntryType> {
    if c == 120 {
        Some(EntryType::Executable)
    } else if c == 108 {
        Some(EntryType::Symlink)
    } else if c == 116 {
        Some(EntryType::Tree)
    } else {
        None
    }
}

/// The flag bytes a type is written as.
pub open spec fn flag_suffix(t: EntryType) -> Seq<u8> {
    match t {
        EntryType::File => Seq::empty(),
        EntryType::Executable => seq![120u8],
        EntryType::Symlink => seq![108u8],
        EntryType::Tree => seq![116u8],
    }
}

/// One entry parsed from `pos`, together with the position after its
/// newline; `None` on malformation.
pub open spec fn spec_parse_line(bytes: Seq<u8>, pos: int) -> Option<((Seq<u8>, DetailsView), int)> {
    let nul = spec_find_byte(bytes, pos, 0);
    if nul >= bytes.len() || nul == pos {
        None
    } else {
        let hex_start = nul + 1;
        if hex_start + 2 * (HASH_LEN as int) > bytes.len() {
            None
        } else if !(forall|i: int|
            hex_start <= i < hex_start + 2 * (HASH_LEN as int) ==> is_hex_digit(#[trigger] bytes[i])) {
            None
        } else {
            let path = bytes.subrange(pos, nul);
            let id = spec_decode_hex_id(bytes, hex_start);
            let q = hex_start + 2 * (HASH_LEN as int);
            if q < bytes.len() && bytes[q] == 10 {
                Some(((path, DetailsView { id, flag: EntryType::File }), q + 1))
            } else if q + 1 < bytes.len() && bytes[q + 1] == 10 && flag_of(bytes[q]) is Some {
                Some(((path, DetailsView { id, flag: flag_of(bytes[q])->0 }), q + 2))
            } else {
                None
            }
        }
    }
}

/// All entries from `pos` to the end of the blob; `None` on malformation.
pub open spec fn spec_parse_entries(bytes: Seq<u8>, pos: int) -> Option<Seq<(Seq<u8>, DetailsView)>>
    decreases bytes.len() - pos,
{
    if pos >= bytes.len() {
        Some(Seq::empty())
    } else {
        match spec_parse_line(bytes, pos) {
            None => None,
            Some((entry, next)) => {
                if next <= pos || next > bytes.len() {
                    None
                } else {
                    match spec_parse_entries(bytes, next) {
                        None => None,
                        Some(rest) => Some(seq![entry] + rest),
                    }
                }
            },
        }
    }
}

/// The parse of a whole manifest blob.
pub open spec fn spec_parse_manifest(bytes: Seq<u8>) -> Option<Seq<(Seq<u8>, DetailsView)>> {
    spec_parse_entries(bytes, 0)
}

/// The bytes one entry is written as.
pub open spec fn spec_line(entry: (Seq<u8>, DetailsView)) -> Seq<u8> {
    entry.0 + seq![0u8] + spec_hex_of(entry.1.id) + flag_suffix(entry.1.flag) + seq![10u8]
}

/// The bytes a sequence of entries is written as.
pub open spec fn spec_generate(entries: Seq<(Seq<u8>, DetailsView)>) -> Seq<u8>
    decreases entries.len(),
{
    if entries.len() == 0 {
        Seq::empty()
    } else {
        spec_line(entries[0]) + spec_generate(entries.drop_first())
    }
}

/// Parses one line starting at `pos`.
#[verifier::loop_isolation(false)]
fn parse_line(bytes: &Vec<u8>, pos: usize) -> (r: Option<((Vec<u8>, Details), usize)>)
    requires
        pos <= bytes@.len(),
    ensures
        match r {
            Some((entry, next)) => {
                &&& spec_parse_line(bytes@, pos as int) matches Some((se, snext))
                    && se == (entry.0@, entry.1@) && snext == next as int
                &&& pos < next <= bytes@.len()
                &&& entry.1.wf()
            },
            None => spec_parse_line(bytes@, pos as int) is None,
        },
{
    let nul = find_byte(bytes, pos, 0);
    if nul >= bytes.len() || nul == pos {
        return None;
    }
    let hex_start = nul + 1;
    if bytes.len() < 2 * HASH_LEN || hex_start > bytes.len() - 2 * HASH_LEN {
        return None;
    }
    // Decode the forty hex digits into twenty id bytes.
    let mut id_bytes: Vec<u8> = Vec::new();
    let mut i: usize = 0;
    while i < HASH_LEN
        invariant
            i <= HASH_LEN,
            hex_start + 2 * HASH_LEN <= bytes@.len(),
            id_bytes@.len() == i,
            forall|j: int|
                0 <= j < 2 * i ==> is_hex_digit(#[trigger] bytes@[hex_start + j]),
            forall|j: int|
                0 <= j < i ==> id_bytes@[j] == spec_decode_hex_byte(
                    bytes@[hex_start + 2 * j],
                    bytes@[hex_start + 2 * j + 1],
                ),
        decreases HASH_LEN - i,
    {
        let hi = bytes[hex_start + 2 * i];
        let lo = bytes[hex_start + 2 * i + 1];
        let hi_ok = (48 <= hi && hi <= 57) || (97 <= hi && hi <= 102);
        let lo_ok = (48 <= lo && lo <= 57) || (97 <= lo && lo <= 102);
        if !hi_ok || !lo_ok {
            proof {
                if !hi_ok {
                    assert(!is_hex_digit(bytes@[hex_start + 2 * i]));
                } else {
                    assert(!is_hex_digit(bytes@[hex_start + 2 * i + 1]));
                }
            }
            return None;
        }
        let hi_v: u8 = if hi <= 57 { hi - 48 } else { hi - 87 };
        let lo_v: u8 = if lo <= 57 { lo - 48 } else { lo - 87 };
        id_bytes.push(hi_v * 16 + lo_v);
        i = i + 1;
    }
    proof {
        assert(id_bytes@ =~= spec_decode_hex_id(bytes@, hex_start as int));
        assert forall|ii: int|
            hex_start <= ii < hex_start + 2 * (HASH_LEN as int) implies is_hex_digit(
            #[trigger] bytes@[ii],
        ) by {
            let j = ii - hex_start;
            assert(is_hex_digit(bytes@[hex_start + j]));
        }
    }
    let id = NodeHash::from_bytes(id_bytes);
    let path = subvec(bytes, pos, nul);
    let q = hex_start + 2 * HASH_LEN;
    if q < bytes.len() && bytes[q] == 10 {
        let details = Details::new(id, EntryType::File);
        Some(((path, details), q + 1))
    } else if q < bytes.len() && q + 1 < bytes.len() && bytes[q + 1] == 10 {
        let c = bytes[q];
        let flag = if c == 120 {
            EntryType::Executable
        } else if c == 108 {
            EntryType::Symlink
        } else if c == 116 {
            EntryType::Tree
        } else {
            return None;
        };
        let details = Details::new(id, flag);
        Some(((path, details), q + 2))
    } else {
        None
    }
}

/// View of an entry list.
pub open spec fn entries_view(files: Seq<(Vec<u8>, Details)>) -> Seq<(Seq<u8>, DetailsView)> {
    Seq::new(files.len(), |i: int| (files[i].0@, files[i].1@))
}

/// Parses all entries from `pos` to the end.
fn parse_entries(bytes: &Vec<u8>, pos: usize) -> (r: Option<Vec<(Vec<u8>, Details)>>)
    requires
        pos <= bytes@.len(),
    ensures
        match r {
            Some(files) => {
                &&& spec_parse_entries(bytes@, pos as int) matches Some(s)
                    && entries_view(files@) == s
                &&& forall|i: int| 0 <= i < files@.len() ==> (#[trigger] files@[i]).1.wf()
            },
            None => spec_parse_entries(bytes@, pos as int) is None,
        },
    decreases bytes@.len() - pos,
{
    if pos >= bytes.len() {
        proof {
            assert(entries_view(Seq::empty()) =~= Seq::<(Seq<u8>, DetailsView)>::empty());
        }
        return Some(Vec::new());
    }
    match parse_line(bytes, pos) {
        None => None,
        Some((entry, next)) => {
            match parse_entries(bytes, next) {
                None => None,
                Some(mut rest) => {
                    rest.insert(0, entry);
                    proof {
                        let s = spec_parse_entries(bytes@, pos as int)->0;
                        assert(entries_view(rest@) =~= s);
                    }
                    Some(rest)
                },
            }
        },
    }
}

impl ManifestContent {
    /// All details well-formed.
    pub open spec fn wf(&self) -> bool {
        forall|i: int| 0 <= i < self.files@.len() ==> (#[trigger] self.files@[i]).1.wf()
    }

    /// An empty manifest.
    pub fn new() -> (r: ManifestContent)
        ensures
            r@ == Seq::<(Seq<u8>, DetailsView)>::empty(),
            r.wf(),
    {
        let r = ManifestContent { files: Vec::new() };
        proof {
            assert(r@ =~= Seq::<(Seq<u8>, DetailsView)>::empty());
        }
        r
    }

    /// Appends one child entry.
    pub fn push_entry(&mut self, path: Vec<u8>, details: Details)
        requires
            old(self).wf(),
            details.wf(),
        ensures
            final(self)@ == old(self)@.push((path@, details@)),
            final(self).wf(),
    {
        let ghost old_view = self@;
        self.files.push((path, details));
        proof {
            assert(self@ =~= old_view.push((self.files@.last().0@, self.files@.last().1@)));
        }
    }

    /// Parses a manifest blob, or reports malformation with `None`.
    pub fn parse(bytes: &Vec<u8>) -> (r: Option<ManifestContent>)
        ensures
            match r {
                Some(mc) => spec_parse_manifest(bytes@) matches Some(s) && mc@ == s && mc.wf(),
                None => spec_parse_manifest(bytes@) is None,
            },
    {
        match parse_entries(bytes, 0) {
            None => None,
            Some(files) => {
                let mc = ManifestContent { files };
                proof {
                    assert(mc@ =~= entries_view(mc.files@));
                }
                Some(mc)
            },
        }
    }

    /// Writes the manifest back out as blob bytes.
    pub fn generate(&self) -> (r: Vec<u8>)
        requires
            self.wf(),
        ensures
            r@ == spec_generate(self@),
    {
        let ghost all = self@;
        let mut out: Vec<u8> = Vec::new();
        let mut k: usize = 0;
        proof {
            assert(all.skip(0) =~= all);
            assert(out@ + spec_generate(all) =~= spec_generate(all));
        }
        while k < self.files.len()
            invariant
                self.wf(),
                all == self@,
                k <= self.files@.len(),
                all.len() == self.files@.len(),
                spec_generate(all) == out@ + spec_generate(all.skip(k as int)),
            decreases self.files@.len() - k,
        {
            let ghost rest = all.skip(k as int);
            proof {
                assert(rest[0] == all[k as int]);
                assert(rest.drop_first() =~= all.skip(k as int + 1));
            }
            let entry = &self.files[k];
            let mut line = gen_line(&entry.0, &entry.1);
            let ghost line_view = line@;
            let ghost out_before = out@;
            out.append(&mut line);
            k = k + 1;
            proof {
                assert(all[k as int - 1] == (self.files@[k as int - 1].0@, self.files@[k as int - 1].1@));
                assert(line_view == spec_line(rest[0]));
                assert(spec_generate(rest) == spec_line(rest[0]) + spec_generate(all.skip(k as int)));
                assert(out@ + spec_generate(all.skip(k as int))
                    =~= out_before + (line_view + spec_generate(all.skip(k as int))));
            }
        }
        proof {
            assert(all.skip(all.len() as int) =~= Seq::<(Seq<u8>, DetailsView)>::empty());
        }
        out
    }
}

/// Writes one entry's line.
fn gen_line(path: &Vec<u8>, details: &Details) -> (r: Vec<u8>)
    requires
        details.wf(),
    ensures
        r@ == spec_line((path@, details@)),
{
    let mut r: Vec<u8> = Vec::new();
    let mut j: usize = 0;
    while j < path.len()
        invariant
            j <= path@.len(),
            r@ == path@.subrange(0, j as int),
        decreases path@.len() - j,
    {
        proof {
            assert(path@.subrange(0, j as int + 1)
                =~= path@.subrange(0, j as int) + seq![path@[j as int]]);
        }
        r.push(path[j]);
        j = j + 1;
    }
    proof {
        assert(path@.subrange(0, path@.len() as int) =~= path@);
    }
    r.push(0u8);
    let ghost prefix = r@;
    let mut i: usize = 0;
    while i < HASH_LEN
        invariant
            i <= HASH_LEN,
            details.wf(),
            prefix == path@ + seq![0u8],
            r@ == prefix + spec_hex_of(details.id@).subrange(0, 2 * i as int),
        decreases HASH_LEN - i,
    {
        let b = details.id.bytes[i];
        let hi: u8 = b / 16;
        let lo: u8 = b % 16;
        let hi_c: u8 = if hi < 10 { 48 + hi } else { 87 + hi };
        let lo_c: u8 = if lo < 10 { 48 + lo } else { 87 + lo };
        proof {
            assert(spec_hex_of(details.id@)[2 * i as int] == hex_char(details.id@[i as int] as int / 16));
            assert(spec_hex_of(details.id@)[2 * i as int + 1] == hex_char(details.id@[i as int] as int % 16));
            assert(spec_hex_of(details.id@).subrange(0, 2 * i as int + 2)
                =~= spec_hex_of(details.id@).subrange(0, 2 * i as int)
                    + seq![spec_hex_of(details.id@)[2 * i as int], spec_hex_of(details.id@)[2 * i as int + 1]]);
        }
        r.push(hi_c);
        r.push(lo_c);
        i = i + 1;
    }
    proof {
        assert(spec_hex_of(details.id@).subrange(0, 2 * HASH_LEN as int) =~= spec_hex_of(details.id@));
    }
    match details.flag {
        EntryType::File => (),
        EntryType::Executable => r.push(120u8),
        EntryType::Symlink => r.push(108u8),
        EntryType::Tree => r.push(116u8),
    }
    r.push(10u8);
    proof {
        assert(r@ =~= spec_line((path@, details@)));
    }
    r
}

} // verus!
