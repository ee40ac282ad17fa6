//! The archive container: an ordered sequence of named entries over a flat
//! byte buffer.
//!
//! The layout, all integers little-endian and offsets absolute unless said
//! otherwise: a `u32` entry count at offset 0, a `u32` name-table byte
//! length at offset 4 (informational, not re-validated), then one 12-byte
//! record per entry (name offset relative to the name table, absolute data
//! offset, data size), then the zero-terminated Shift-JIS names, then the
//! raw data blocks. Entry order is significant and survives a
//! parse/write round trip.

use vstd::assert_seqs_equal;
use vstd::bytes::{lemma_auto_spec_u32_to_from_le_bytes, spec_u32_to_le_bytes, u32_to_le_bytes};
use vstd::prelude::*;

use crate::encoding::{encode_string, sjis_decode, sjis_encode, sjis_exact_chars};
use crate::error::{ErrModel, FvpError, FvpResult};
use crate::fread::{lemma_nul_pos_unique, read_string, read_u32, spec_read_cstr, spec_read_u32};

verus! {

/// The mathematical model of one archive entry: its decoded filename and
/// its raw bytes.
pub ghost struct EntryModel {
    pub name: Seq<char>,
    pub data: Seq<u8>,
}

/// One named entry of the container. It owns its filename and its bytes.
#[derive(Debug)]
pub struct FvpBinEntry {
    filename: String,
    data: Vec<u8>,
}

impl View for FvpBinEntry {
    type V = EntryModel;

    closed spec fn view(&self) -> EntryModel {
        EntryModel { name: self.filename@, data: self.data@ }
    }
}

impl FvpBinEntry {
    /// Builds an entry from a filename and its raw bytes.
    pub fn new(filename: String, data: Vec<u8>) -> (r: Self)
        ensures
            r@ == (EntryModel { name: filename@, data: data@ }),
    {
        FvpBinEntry { filename, data }
    }

    /// The entry's decoded filename.
    pub fn filename(&self) -> (r: &str)
        ensures
            r@ == self@.name,
    {
        self.filename.as_str()
    }

    /// The entry's raw bytes.
    pub fn data(&self) -> (r: &[u8])
        ensures
            r@ == self@.data,
    {
        self.data.as_slice()
    }
}

/// The archive container: an ordered sequence of entries.
#[derive(Debug)]
pub struct FvpBin(Vec<FvpBinEntry>);

impl View for FvpBin {
    type V = Seq<EntryModel>;

    closed spec fn view(&self) -> Seq<EntryModel> {
        self.0@.map_values(|e: FvpBinEntry| e@)
    }
}

impl Default for FvpBin {
    /// The empty archive.
    fn default() -> (r: Self)
        ensures
            r@ == Seq::<EntryModel>::empty(),
    {
        FvpBin(Vec::new())
    }
}

impl FvpBin {
    /// Builds an archive holding the given entries, in order.
    pub fn new(entries: Vec<FvpBinEntry>) -> (r: Self)
        ensures
            r@ == entries@.map_values(|e: FvpBinEntry| e@),
    {
        FvpBin(entries)
    }

    /// Appends one entry at the end.
    pub fn add_entry(&mut self, entry: FvpBinEntry)
        ensures
            final(self)@ == old(self)@.push(entry@),
    {
        self.0.push(entry);
    }

    /// The entries, in insertion order.
    pub fn entries(&self) -> (r: &Vec<FvpBinEntry>)
        ensures
            r@.len() == self@.len(),
            r@.map_values(|e: FvpBinEntry| e@) == self@,
    {
        &self.0
    }
}

/// What parsing the `i`-th entry record of `src` yields, when the container
/// declares `count` entries: the 12-byte record at `8 + 12*i` is read, the
/// name is resolved through the name table at `8 + 12*count`, and the data
/// bytes are sliced out; the first step that does not fit the buffer stops
/// with the error the reader gives.
pub open spec fn spec_parse_entry(src: Seq<u8>, count: int, i: int) -> Result<
    EntryModel,
    ErrModel,
> {
    let idx = 8 + 12 * i;
    if idx + 12 > src.len() {
        Err(ErrModel::OffsetTooLarge)
    } else {
        let name_off = spec_read_u32(src, idx) as int;
        let data_off = spec_read_u32(src, idx + 4) as int;
        let size = spec_read_u32(src, idx + 8) as int;
        match spec_read_cstr(src, 8 + 12 * count + name_off) {
            Err(e) => Err(e),
            Ok(name) => if data_off + size > src.len() {
                Err(ErrModel::OffsetTooLarge)
            } else {
                Ok(EntryModel { name, data: src.subrange(data_off, data_off + size) })
            },
        }
    }
}

/// The entries from index `i` on, or the error of the first one that fails.
pub open spec fn spec_parse_entries(src: Seq<u8>, count: int, i: int) -> Result<
    Seq<EntryModel>,
    ErrModel,
>
    decreases count - i,
{
    if i >= count {
        Ok(Seq::empty())
    } else {
        match spec_parse_entry(src, count, i) {
            Err(e) => Err(e),
            Ok(ent) => match spec_parse_entries(src, count, i + 1) {
                Err(e) => Err(e),
                Ok(rest) => Ok(seq![ent] + rest),
            },
        }
    }
}

/// What parsing a whole buffer yields: the declared number of entries, each
/// resolved through the entry records, or the error of the first step that
/// fails. The name-table byte length at offset 4 is read but not validated.
pub open spec fn spec_parse(src: Seq<u8>) -> Result<Seq<EntryModel>, ErrModel> {
    if src.len() < 8 {
        Err(ErrModel::OffsetTooLarge)
    } else {
        spec_parse_entries(src, spec_read_u32(src, 0) as int, 0)
    }
}

proof fn lemma_parse_entries_ok(src: Seq<u8>, count: int, k: int, models: Seq<EntryModel>)
    requires
        0 <= k <= count,
        models.len() == count - k,
        forall|j: int| k <= j < count ==> spec_parse_entry(src, count, j) == Ok::<
            EntryModel,
            ErrModel,
        >(models[j - k]),
    ensures
        spec_parse_entries(src, count, k) == Ok::<Seq<EntryModel>, ErrModel>(models),
    decreases count - k,
{
    if k == count {
        assert(models =~= Seq::<EntryModel>::empty());
    } else {
        let rest = models.subrange(1, models.len() as int);
        lemma_parse_entries_ok(src, count, k + 1, rest);
        assert(models =~= seq![models[0]] + rest);
    }
}

proof fn lemma_parse_entries_err(src: Seq<u8>, count: int, k: int, i: int, e: ErrModel)
    requires
        0 <= k <= i < count,
        forall|j: int| k <= j < i ==> spec_parse_entry(src, count, j) is Ok,
        spec_parse_entry(src, count, i) == Err::<EntryModel, ErrModel>(e),
    ensures
        spec_parse_entries(src, count, k) == Err::<Seq<EntryModel>, ErrModel>(e),
    decreases i - k,
{
    if k < i {
        lemma_parse_entries_err(src, count, k + 1, i, e);
    }
}

impl FvpBin {
    /// Parses a container from a byte buffer. Succeeds exactly when every
    /// declared entry record, name and data range fits the buffer and every
    /// name decodes as Shift-JIS exactly (re-encoding the decoded name
    /// reproduces its bytes); the result then holds those entries in record
    /// order, and the error otherwise is the first failing step's.
    pub fn parse(src: &[u8]) -> (r: FvpResult<FvpBin>)
        ensures
            match r {
                Ok(arc) => spec_parse(src@) == Ok::<Seq<EntryModel>, ErrModel>(arc@),
                Err(e) => spec_parse(src@) == Err::<Seq<EntryModel>, ErrModel>(e@),
            },
    {
        if src.len() < 8 {
            return Err(FvpError::OffsetTooLarge);
        }
        let count_u32 = match read_u32(src, 0) {
            Ok(v) => v,
            Err(_) => {
                assert(false);
                return Err(FvpError::OffsetTooLarge);
            },
        };
        let ghost count: int = count_u32 as int;
        let mut v: Vec<FvpBinEntry> = Vec::new();
        let mut i: u32 = 0;
        while i < count_u32
            invariant
                src@.len() >= 8,
                count == spec_read_u32(src@, 0) as int,
                count == count_u32 as int,
                i as int <= count,
                v@.len() == i as int,
                forall|j: int|
                    0 <= j < i as int ==> spec_parse_entry(src@, count, j) == Ok::<
                        EntryModel,
                        ErrModel,
                    >(v@.map_values(|e: FvpBinEntry| e@)[j]),
            decreases count - i as int,
        {
            let idx: u64 = 8 + 12 * (i as u64);
            if idx + 12 > src.len() as u64 {
                proof {
                    lemma_parse_entries_err(src@, count, 0, i as int, ErrModel::OffsetTooLarge);
                }
                return Err(FvpError::OffsetTooLarge);
            }
            let idxu: usize = idx as usize;
            let name_off = match read_u32(src, idxu) {
                Ok(x) => x,
                Err(_) => {
                    assert(false);
                    return Err(FvpError::OffsetTooLarge);
                },
            };
            let data_off = match read_u32(src, idxu + 4) {
                Ok(x) => x,
                Err(_) => {
                    assert(false);
                    return Err(FvpError::OffsetTooLarge);
                },
            };
            let size = match read_u32(src, idxu + 8) {
                Ok(x) => x,
                Err(_) => {
                    assert(false);
                    return Err(FvpError::OffsetTooLarge);
                },
            };
            let nstart: u64 = 8 + 12 * (count_u32 as u64) + name_off as u64;
            if nstart > src.len() as u64 {
                proof {
                    assert(spec_parse_entry(src@, count, i as int) == Err::<
                        EntryModel,
                        ErrModel,
                    >(ErrModel::OffsetTooLarge));
                    lemma_parse_entries_err(src@, count, 0, i as int, ErrModel::OffsetTooLarge);
                }
                return Err(FvpError::OffsetTooLarge);
            }
            let name = match read_string(src, nstart as usize) {
                Ok(s) => s,
                Err(e) => {
                    proof {
                        lemma_parse_entries_err(src@, count, 0, i as int, e@);
                    }
                    return Err(e);
                },
            };
            let dend: u64 = data_off as u64 + size as u64;
            if dend > src.len() as u64 {
                proof {
                    lemma_parse_entries_err(src@, count, 0, i as int, ErrModel::OffsetTooLarge);
                }
                return Err(FvpError::OffsetTooLarge);
            }
            let data = vstd::slice::slice_to_vec(
                vstd::slice::slice_subrange(src, data_off as usize, dend as usize),
            );
            let ghost model = EntryModel { name: name@, data: data@ };
            assert(spec_parse_entry(src@, count, i as int) == Ok::<EntryModel, ErrModel>(model));
            v.push(FvpBinEntry { filename: name, data });
            assert(v@.map_values(|e: FvpBinEntry| e@).last() == model);
            i = i + 1;
        }
        proof {
            lemma_parse_entries_ok(src@, count, 0, v@.map_values(|e: FvpBinEntry| e@));
        }
        Ok(FvpBin(v))
    }
}

/// The `i`-th name's Shift-JIS encoding (the empty sequence when the name
/// does not encode; `writable` rules that case out).
pub open spec fn enc_name(e: EntryModel) -> Seq<u8> {
    match sjis_encode(e.name) {
        Some(b) => b,
        None => Seq::empty(),
    }
}

/// Every entry's name is representable in Shift-JIS.
pub open spec fn all_names_encode(entries: Seq<EntryModel>) -> bool {
    forall|j: int| 0 <= j < entries.len() ==> sjis_encode(entries[j].name) is Some
}

/// Offset of the `i`-th encoded name inside the name table: the lengths of
/// the earlier encoded names, each plus its zero terminator.
pub open spec fn name_off(entries: Seq<EntryModel>, i: int) -> int
    decreases i,
{
    if i <= 0 {
        0
    } else {
        name_off(entries, i - 1) + enc_name(entries[i - 1]).len() + 1
    }
}

/// Total byte length of the first `i` data blocks.
pub open spec fn data_sum(entries: Seq<EntryModel>, i: int) -> int
    decreases i,
{
    if i <= 0 {
        0
    } else {
        data_sum(entries, i - 1) + entries[i - 1].data.len()
    }
}

/// Absolute offset of the `i`-th data block: past the header, the entry
/// records, the whole name table and the earlier blocks.
pub open spec fn data_off(entries: Seq<EntryModel>, i: int) -> int {
    8 + 12 * entries.len() + name_off(entries, entries.len() as int) + data_sum(entries, i)
}

/// The first `i` entry records: name offset, data offset, data size, each
/// as four little-endian bytes.
pub open spec fn index_bytes(entries: Seq<EntryModel>, i: int) -> Seq<u8>
    decreases i,
{
    if i <= 0 {
        Seq::empty()
    } else {
        index_bytes(entries, i - 1) + spec_u32_to_le_bytes(name_off(entries, i - 1) as u32)
            + spec_u32_to_le_bytes(data_off(entries, i - 1) as u32) + spec_u32_to_le_bytes(
            entries[i - 1].data.len() as u32,
        )
    }
}

/// The first `i` encoded names, each followed by its zero terminator.
pub open spec fn names_bytes(entries: Seq<EntryModel>, i: int) -> Seq<u8>
    decreases i,
{
    if i <= 0 {
        Seq::empty()
    } else {
        names_bytes(entries, i - 1) + enc_name(entries[i - 1]) + seq![0u8]
    }
}

/// The first `i` data blocks, concatenated.
pub open spec fn datas_bytes(entries: Seq<EntryModel>, i: int) -> Seq<u8>
    decreases i,
{
    if i <= 0 {
        Seq::empty()
    } else {
        datas_bytes(entries, i - 1) + entries[i - 1].data
    }
}

/// The exact bytes the writer produces for `entries`: entry count,
/// name-table length, entry records, name table, data blocks.
pub open spec fn spec_write_bytes(entries: Seq<EntryModel>) -> Seq<u8> {
    let n = entries.len() as int;
    spec_u32_to_le_bytes(entries.len() as u32) + spec_u32_to_le_bytes(name_off(entries, n) as u32)
        + index_bytes(entries, n) + names_bytes(entries, n) + datas_bytes(entries, n)
}

/// The archive can be written at all: every name encodes, and the final
/// data offset — the largest value the format has to store — fits a `u32`.
pub open spec fn writable(entries: Seq<EntryModel>) -> bool {
    all_names_encode(entries) && data_off(entries, entries.len() as int) <= u32::MAX
}

/// Which error the writer reports when it cannot write: a name that does
/// not survive the encoding round trip takes precedence over sizes that do
/// not fit.
pub open spec fn spec_write_err(entries: Seq<EntryModel>) -> ErrModel {
    if !names_round_trip(entries) {
        ErrModel::CannotEncodeString
    } else {
        ErrModel::ArchiveTooLarge
    }
}

proof fn lemma_offsets_nonneg(entries: Seq<EntryModel>, i: int)
    ensures
        0 <= name_off(entries, i),
        0 <= data_sum(entries, i),
    decreases i,
{
    if i > 0 {
        lemma_offsets_nonneg(entries, i - 1);
    }
}

proof fn lemma_offsets_mono(entries: Seq<EntryModel>, i: int, j: int)
    requires
        i <= j,
    ensures
        name_off(entries, i) <= name_off(entries, j),
        data_sum(entries, i) <= data_sum(entries, j),
    decreases j - i,
{
    if i < j {
        lemma_offsets_mono(entries, i, j - 1);
    }
}

proof fn lemma_section_lens(entries: Seq<EntryModel>, i: int)
    requires
        0 <= i,
    ensures
        index_bytes(entries, i).len() == 12 * i,
        names_bytes(entries, i).len() == name_off(entries, i),
        datas_bytes(entries, i).len() == data_sum(entries, i),
    decreases i,
{
    lemma_auto_spec_u32_to_from_le_bytes();
    if i > 0 {
        lemma_section_lens(entries, i - 1);
    }
}

/// Appends `x` as four little-endian bytes.
fn push_le32(out: &mut Vec<u8>, x: u32)
    ensures
        final(out)@ == old(out)@ + spec_u32_to_le_bytes(x),
{
    let mut b = u32_to_le_bytes(x);
    out.append(&mut b);
}

/// Appends a whole byte slice.
fn push_bytes(out: &mut Vec<u8>, src: &[u8])
    ensures
        final(out)@ == old(out)@ + src@,
{
    let mut k: usize = 0;
    while k < src.len()
        invariant
            k <= src@.len(),
            out@ == old(out)@ + src@.subrange(0, k as int),
        decreases src@.len() - k,
    {
        out.push(src[k]);
        assert(old(out)@ + src@.subrange(0, k as int) + seq![src@[k as int]] =~= old(out)@
            + src@.subrange(0, k as int + 1));
        k = k + 1;
    }
    assert(old(out)@ + src@.subrange(0, src@.len() as int) =~= old(out)@ + src@);
}

/// Whether the buffer holds a zero byte (which the name table's
/// terminators would cut a name short at).
fn contains_zero(b: &[u8]) -> (r: bool)
    ensures
        r <==> b@.contains(0u8),
{
    let mut i: usize = 0;
    while i < b.len()
        invariant
            i <= b@.len(),
            forall|j: int| 0 <= j < i as int ==> b@[j] != 0,
        decreases b@.len() - i,
    {
        if b[i] == 0 {
            assert(b@[i as int] == 0u8);
            assert(b@.contains(0u8));
            return true;
        }
        i = i + 1;
    }
    proof {
        if b@.contains(0u8) {
            let w = choose|j: int| 0 <= j < b@.len() && b@[j] == 0u8;
            assert(false);
        }
    }
    false
}

impl FvpBin {
    /// Serializes the archive to the container byte layout. Succeeds
    /// exactly when every filename survives the Shift-JIS round trip — it
    /// encodes, the encoding is free of zero bytes, and decoding it yields
    /// the same name back — and every offset fits the format's 32-bit
    /// fields; any drift is an encoding error, never a silent
    /// approximation. On success the output is [`spec_write_bytes`] of the
    /// entries, and parsing it yields exactly these entries again.
    pub fn write(&self) -> (r: FvpResult<Vec<u8>>)
        ensures
            match r {
                Ok(out) => {
                    &&& names_round_trip(self@)
                    &&& writable(self@)
                    &&& out@ == spec_write_bytes(self@)
                    &&& spec_parse(out@) == Ok::<Seq<EntryModel>, ErrModel>(self@)
                },
                Err(e) => !(names_round_trip(self@) && writable(self@)) && e@ == spec_write_err(
                    self@,
                ),
            },
    {
        let ghost m = self@;
        let n: usize = self.0.len();
        let ghost gn: int = n as int;
        assert(m.len() == gn) by {
            assert(m.len() == self.0@.len());
        }
        // Encode every filename first, demanding the exact round trip:
        // name-table failures take precedence over sizes.
        let mut encs: Vec<Vec<u8>> = Vec::new();
        let mut j: usize = 0;
        while j < n
            invariant
                n == self.0@.len(),
                m == self@,
                m.len() == gn == n as int,
                j <= n,
                encs@.len() == j as int,
                forall|t: int| 0 <= t < j as int ==> #[trigger] sjis_encode(m[t].name) is Some,
                forall|t: int| 0 <= t < j as int ==> (#[trigger] encs@[t])@ == enc_name(m[t]),
                forall|t: int|
                    0 <= t < j as int ==> !(#[trigger] enc_name(m[t])).contains(0u8) && sjis_decode(
                        enc_name(m[t]),
                    ) == Some(m[t].name),
            decreases n - j,
        {
            assert(m[j as int] == self.0@[j as int]@);
            match encode_string(self.0[j].filename.as_str()) {
                Ok(b) => {
                    if contains_zero(b.as_slice()) {
                        assert(!names_round_trip(m)) by {
                            assert(enc_name(m[j as int]) == b@);
                        }
                        return Err(FvpError::CannotEncodeString);
                    }
                    assert(enc_name(m[j as int]) == b@);
                    encs.push(b);
                },
                Err(_) => {
                    assert(!names_round_trip(m)) by {
                        if names_round_trip(m) {
                            assert(sjis_encode(m[j as int].name) is Some);
                            assert(sjis_decode(enc_name(m[j as int])) == Some(m[j as int].name));
                            assert(sjis_exact_chars(m[j as int].name));
                        }
                    }
                    return Err(FvpError::CannotEncodeString);
                },
            }
            j = j + 1;
        }
        assert(names_round_trip(m));
        assert(all_names_encode(m));
        // Sum the name table, bailing out as soon as a 32-bit field would
        // overflow; partial sums only ever grow, so a bail-out is final.
        let mut acc: u64 = 0;
        let mut j: usize = 0;
        while j < n
            invariant
                m.len() == gn == n as int,
                n == self.0@.len(),
                m == self@,
                encs@.len() == n as int,
                names_round_trip(m),
                all_names_encode(m),
                forall|t: int| 0 <= t < n as int ==> (#[trigger] encs@[t])@ == enc_name(m[t]),
                j <= n,
                acc == name_off(m, j as int),
                acc <= u32::MAX,
            decreases n - j,
        {
            let el: u64 = encs[j].len() as u64;
            assert(name_off(m, j as int + 1) == name_off(m, j as int) + enc_name(
                m[j as int],
            ).len() + 1);
            if el > 0xffff_ffff {
                proof {
                    lemma_offsets_nonneg(m, j as int);
                    lemma_offsets_mono(m, j as int + 1, gn);
                    lemma_offsets_nonneg(m, gn);
                }
                return Err(FvpError::ArchiveTooLarge);
            }
            acc = acc + el + 1;
            if acc > 0xffff_ffff {
                proof {
                    lemma_offsets_mono(m, j as int + 1, gn);
                    lemma_offsets_nonneg(m, gn);
                }
                return Err(FvpError::ArchiveTooLarge);
            }
            j = j + 1;
        }
        let ghost names_total: int = name_off(m, gn);
        // The header and record sections must fit too.
        if n as u64 > 0xffff_ffff {
            proof {
                lemma_offsets_nonneg(m, gn);
            }
            return Err(FvpError::ArchiveTooLarge);
        }
        let base: u64 = 8 + 12 * (n as u64) + acc;
        if base > 0xffff_ffff {
            proof {
                lemma_offsets_nonneg(m, gn);
            }
            return Err(FvpError::ArchiveTooLarge);
        }
        // Sum the data blocks the same way.
        let mut dacc: u64 = base;
        let mut j: usize = 0;
        while j < n
            invariant
                m.len() == gn == n as int,
                n == self.0@.len(),
                m == self@,
                base == 8 + 12 * gn + names_total,
                names_total == name_off(m, gn),
                names_round_trip(m),
                all_names_encode(m),
                j <= n,
                dacc == data_off(m, j as int),
                dacc <= u32::MAX,
            decreases n - j,
        {
            assert(m[j as int] == self.0@[j as int]@);
            let dl: u64 = self.0[j].data.len() as u64;
            assert(data_sum(m, j as int + 1) == data_sum(m, j as int) + m[j as int].data.len());
            if dl > 0xffff_ffff {
                proof {
                    lemma_offsets_nonneg(m, j as int);
                    lemma_offsets_mono(m, j as int + 1, gn);
                }
                return Err(FvpError::ArchiveTooLarge);
            }
            dacc = dacc + dl;
            if dacc > 0xffff_ffff {
                proof {
                    lemma_offsets_mono(m, j as int + 1, gn);
                }
                return Err(FvpError::ArchiveTooLarge);
            }
            j = j + 1;
        }
        assert(writable(m));
        // Emit: header, entry records, name table, data blocks.
        let mut out: Vec<u8> = Vec::new();
        push_le32(&mut out, n as u32);
        push_le32(&mut out, (base - 8 - 12 * (n as u64)) as u32);
        let ghost head: Seq<u8> = spec_u32_to_le_bytes(m.len() as u32) + spec_u32_to_le_bytes(
            name_off(m, gn) as u32,
        );
        assert(out@ =~= head);
        let mut no_off: u32 = 0;
        let mut d_off: u32 = base as u32;
        assert(d_off == data_off(m, 0)) by {
            lemma_offsets_nonneg(m, gn);
        }
        let mut j: usize = 0;
        while j < n
            invariant
                m.len() == gn == n as int,
                n == self.0@.len(),
                m == self@,
                writable(m),
                encs@.len() == n as int,
                all_names_encode(m),
                forall|t: int| 0 <= t < n as int ==> (#[trigger] encs@[t])@ == enc_name(m[t]),
                j <= n,
                no_off == name_off(m, j as int),
                d_off == data_off(m, j as int),
                out@ == head + index_bytes(m, j as int),
            decreases n - j,
        {
            proof {
                lemma_offsets_nonneg(m, j as int);
                lemma_offsets_nonneg(m, gn);
                lemma_offsets_mono(m, j as int + 1, gn);
                lemma_offsets_mono(m, 0, j as int);
            }
            assert(m[j as int] == self.0@[j as int]@);
            let sz: usize = self.0[j].data.len();
            assert(data_sum(m, j as int + 1) == data_sum(m, j as int) + m[j as int].data.len());
            assert(name_off(m, j as int + 1) == name_off(m, j as int) + enc_name(
                m[j as int],
            ).len() + 1);
            push_le32(&mut out, no_off);
            push_le32(&mut out, d_off);
            push_le32(&mut out, sz as u32);
            assert(out@ =~= head + (index_bytes(m, j as int) + spec_u32_to_le_bytes(
                name_off(m, j as int) as u32,
            ) + spec_u32_to_le_bytes(data_off(m, j as int) as u32) + spec_u32_to_le_bytes(
                m[j as int].data.len() as u32,
            )));
            let el: usize = encs[j].len();
            no_off = no_off + (el as u32) + 1;
            d_off = d_off + (sz as u32);
            j = j + 1;
        }
        let ghost mid: Seq<u8> = head + index_bytes(m, gn);
        let mut j: usize = 0;
        while j < n
            invariant
                m.len() == gn == n as int,
                m == self@,
                writable(m),
                encs@.len() == n as int,
                all_names_encode(m),
                forall|t: int| 0 <= t < n as int ==> (#[trigger] encs@[t])@ == enc_name(m[t]),
                j <= n,
                out@ == mid + names_bytes(m, j as int),
            decreases n - j,
        {
            push_bytes(&mut out, encs[j].as_slice());
            out.push(0u8);
            assert(out@ =~= mid + (names_bytes(m, j as int) + enc_name(m[j as int]) + seq![0u8]));
            j = j + 1;
        }
        let ghost midn: Seq<u8> = mid + names_bytes(m, gn);
        let mut j: usize = 0;
        while j < n
            invariant
                m.len() == gn == n as int,
                n == self.0@.len(),
                m == self@,
                writable(m),
                j <= n,
                out@ == midn + datas_bytes(m, j as int),
            decreases n - j,
        {
            assert(m[j as int] == self.0@[j as int]@);
            push_bytes(&mut out, self.0[j].data.as_slice());
            assert(out@ =~= midn + (datas_bytes(m, j as int) + m[j as int].data));
            j = j + 1;
        }
        assert(out@ =~= spec_write_bytes(m));
        proof {
            lemma_parse_write_round_trip(m);
        }
        Ok(out)
    }
}

/// The names encode, each encoding decodes back to the same characters,
/// and no encoding holds a zero byte (which the terminator would cut
/// short). Only such filenames survive a write/parse round trip; a name
/// holding U+0000 does not, since its encoding collides with the
/// terminator.
pub open spec fn names_round_trip(entries: Seq<EntryModel>) -> bool {
    forall|j: int|
        0 <= j < entries.len() ==> {
            &&& #[trigger] sjis_encode(entries[j].name) is Some
            &&& !enc_name(entries[j]).contains(0u8)
            &&& sjis_decode(enc_name(entries[j])) == Some(entries[j].name)
        }
}

proof fn lemma_index_bytes_slice(entries: Seq<EntryModel>, mm: int, i: int)
    requires
        0 <= i < mm,
    ensures
        index_bytes(entries, mm).subrange(12 * i, 12 * i + 12) == spec_u32_to_le_bytes(
            name_off(entries, i) as u32,
        ) + spec_u32_to_le_bytes(data_off(entries, i) as u32) + spec_u32_to_le_bytes(
            entries[i].data.len() as u32,
        ),
    decreases mm,
{
    lemma_auto_spec_u32_to_from_le_bytes();
    lemma_section_lens(entries, mm - 1);
    let rec = spec_u32_to_le_bytes(name_off(entries, mm - 1) as u32) + spec_u32_to_le_bytes(
        data_off(entries, mm - 1) as u32,
    ) + spec_u32_to_le_bytes(entries[mm - 1].data.len() as u32);
    assert(index_bytes(entries, mm) =~= index_bytes(entries, mm - 1) + rec);
    if i == mm - 1 {
        assert(index_bytes(entries, mm).subrange(12 * i, 12 * i + 12) =~= rec);
    } else {
        lemma_index_bytes_slice(entries, mm - 1, i);
        assert(index_bytes(entries, mm).subrange(12 * i, 12 * i + 12) =~= index_bytes(
            entries,
            mm - 1,
        ).subrange(12 * i, 12 * i + 12));
    }
}

proof fn lemma_names_bytes_slice(entries: Seq<EntryModel>, mm: int, i: int)
    requires
        0 <= i < mm,
    ensures
        names_bytes(entries, mm).subrange(name_off(entries, i), name_off(entries, i + 1))
            == enc_name(entries[i]) + seq![0u8],
    decreases mm,
{
    lemma_section_lens(entries, mm - 1);
    lemma_offsets_nonneg(entries, i);
    let chunk = enc_name(entries[mm - 1]) + seq![0u8];
    assert(names_bytes(entries, mm) =~= names_bytes(entries, mm - 1) + chunk);
    if i == mm - 1 {
        assert(names_bytes(entries, mm).subrange(name_off(entries, i), name_off(entries, i + 1))
            =~= chunk);
    } else {
        lemma_names_bytes_slice(entries, mm - 1, i);
        lemma_offsets_mono(entries, i + 1, mm - 1);
        assert(names_bytes(entries, mm).subrange(name_off(entries, i), name_off(entries, i + 1))
            =~= names_bytes(entries, mm - 1).subrange(
            name_off(entries, i),
            name_off(entries, i + 1),
        ));
    }
}

proof fn lemma_datas_bytes_slice(entries: Seq<EntryModel>, mm: int, i: int)
    requires
        0 <= i < mm,
    ensures
        datas_bytes(entries, mm).subrange(data_sum(entries, i), data_sum(entries, i + 1))
            == entries[i].data,
    decreases mm,
{
    lemma_section_lens(entries, mm - 1);
    lemma_offsets_nonneg(entries, i);
    assert(datas_bytes(entries, mm) =~= datas_bytes(entries, mm - 1) + entries[mm - 1].data);
    if i == mm - 1 {
        assert(datas_bytes(entries, mm).subrange(data_sum(entries, i), data_sum(entries, i + 1))
            =~= entries[i].data);
    } else {
        lemma_datas_bytes_slice(entries, mm - 1, i);
        lemma_offsets_mono(entries, i + 1, mm - 1);
        assert(datas_bytes(entries, mm).subrange(data_sum(entries, i), data_sum(entries, i + 1))
            =~= datas_bytes(entries, mm - 1).subrange(
            data_sum(entries, i),
            data_sum(entries, i + 1),
        ));
    }
}

proof fn lemma_written_entry(entries: Seq<EntryModel>, i: int)
    requires
        writable(entries),
        names_round_trip(entries),
        0 <= i < entries.len(),
    ensures
        spec_parse_entry(spec_write_bytes(entries), entries.len() as int, i) == Ok::<
            EntryModel,
            ErrModel,
        >(entries[i]),
{
    let n = entries.len() as int;
    let out = spec_write_bytes(entries);
    lemma_auto_spec_u32_to_from_le_bytes();
    lemma_section_lens(entries, n);
    lemma_offsets_nonneg(entries, n);
    lemma_offsets_nonneg(entries, i);
    lemma_offsets_nonneg(entries, i + 1);
    lemma_offsets_mono(entries, i + 1, n);
    lemma_offsets_mono(entries, 0, i);
    let nt = name_off(entries, n);
    let head = spec_u32_to_le_bytes(entries.len() as u32) + spec_u32_to_le_bytes(nt as u32);
    let ib = index_bytes(entries, n);
    let nb = names_bytes(entries, n);
    let db = datas_bytes(entries, n);
    assert(out.len() == 8 + 12 * n + nt + data_sum(entries, n));
    // The three record fields.
    let idx = 8 + 12 * i;
    lemma_index_bytes_slice(entries, n, i);
    let rec = spec_u32_to_le_bytes(name_off(entries, i) as u32) + spec_u32_to_le_bytes(
        data_off(entries, i) as u32,
    ) + spec_u32_to_le_bytes(entries[i].data.len() as u32);
    assert_seqs_equal!(out.subrange(idx, idx + 4) == spec_u32_to_le_bytes(name_off(entries, i) as u32), t => {
        assert(out[idx + t] == ib[12 * i + t]);
        assert(ib[12 * i + t] == ib.subrange(12 * i, 12 * i + 12)[t]);
        assert(rec[t] == spec_u32_to_le_bytes(name_off(entries, i) as u32)[t]);
    });
    assert_seqs_equal!(out.subrange(idx + 4, idx + 8) == spec_u32_to_le_bytes(data_off(entries, i) as u32), t => {
        assert(out[idx + 4 + t] == ib[12 * i + 4 + t]);
        assert(ib[12 * i + 4 + t] == ib.subrange(12 * i, 12 * i + 12)[4 + t]);
        assert(rec[4 + t] == spec_u32_to_le_bytes(data_off(entries, i) as u32)[t]);
    });
    assert_seqs_equal!(out.subrange(idx + 8, idx + 12) == spec_u32_to_le_bytes(entries[i].data.len() as u32), t => {
        assert(out[idx + 8 + t] == ib[12 * i + 8 + t]);
        assert(ib[12 * i + 8 + t] == ib.subrange(12 * i, 12 * i + 12)[8 + t]);
        assert(rec[8 + t] == spec_u32_to_le_bytes(entries[i].data.len() as u32)[t]);
    });
    // The stored 32-bit fields carry their exact values.
    assert(name_off(entries, i) <= u32::MAX && data_off(entries, i) <= u32::MAX
        && entries[i].data.len() <= u32::MAX) by {
        assert(data_off(entries, i) <= data_off(entries, n));
        assert(entries[i].data.len() == data_sum(entries, i + 1) - data_sum(entries, i));
    }
    assert(spec_read_u32(out, idx) as int == name_off(entries, i));
    assert(spec_read_u32(out, idx + 4) as int == data_off(entries, i));
    assert(spec_read_u32(out, idx + 8) as int == entries[i].data.len());
    // The name: its encoded bytes sit in the name table at name_off(i),
    // are free of zero bytes, and end in the terminator.
    let enc = enc_name(entries[i]);
    let nstart = 8 + 12 * n + name_off(entries, i);
    lemma_names_bytes_slice(entries, n, i);
    let chunk = nb.subrange(name_off(entries, i), name_off(entries, i + 1));
    assert(name_off(entries, i + 1) == name_off(entries, i) + enc.len() + 1);
    assert forall|t: int| 0 <= t <= enc.len() implies out[nstart + t] == chunk[t] by {
        assert(out[nstart + t] == nb[name_off(entries, i) + t]);
        assert(nb[name_off(entries, i) + t] == chunk[t]);
    }
    assert forall|j: int| nstart <= j < nstart + enc.len() implies out[j] != 0 by {
        let t = j - nstart;
        assert(out[nstart + t] == chunk[t]);
        assert(chunk[t] == (enc + seq![0u8])[t]);
        if enc[t] == 0u8 {
            assert(enc.contains(0u8));
        }
    }
    assert(out[nstart + enc.len()] == 0u8) by {
        assert(chunk[enc.len() as int] == (enc + seq![0u8])[enc.len() as int]);
    }
    lemma_nul_pos_unique(out, nstart, nstart + enc.len());
    assert_seqs_equal!(out.subrange(nstart, nstart + enc.len() as int) == enc, t => {
        assert(out[nstart + t] == chunk[t]);
        assert(chunk[t] == (enc + seq![0u8])[t]);
    });
    assert(spec_read_cstr(out, nstart) == Ok::<Seq<char>, ErrModel>(entries[i].name));
    // The data block.
    let dstart = data_off(entries, i);
    assert(data_off(entries, i) + entries[i].data.len() == data_off(entries, i + 1));
    assert(data_off(entries, i + 1) <= out.len());
    lemma_datas_bytes_slice(entries, n, i);
    let dchunk = db.subrange(data_sum(entries, i), data_sum(entries, i + 1));
    assert_seqs_equal!(out.subrange(dstart, dstart + entries[i].data.len() as int) == entries[i].data, t => {
        assert(out[dstart + t] == db[data_sum(entries, i) + t]);
        assert(db[data_sum(entries, i) + t] == dchunk[t]);
    });
    assert(spec_parse_entry(out, n, i) == Ok::<EntryModel, ErrModel>(entries[i]));
}

/// Round trip: writing any archive whose filenames Shift-JIS maps
/// reversibly (and without zero bytes) and whose offsets fit the format,
/// then parsing the produced bytes, yields exactly the same entries —
/// filenames, data and order.
pub proof fn lemma_parse_write_round_trip(entries: Seq<EntryModel>)
    requires
        writable(entries),
        names_round_trip(entries),
    ensures
        spec_parse(spec_write_bytes(entries)) == Ok::<Seq<EntryModel>, ErrModel>(entries),
{
    let n = entries.len() as int;
    let out = spec_write_bytes(entries);
    lemma_auto_spec_u32_to_from_le_bytes();
    lemma_section_lens(entries, n);
    lemma_offsets_nonneg(entries, n);
    assert(out.len() == 8 + 12 * n + name_off(entries, n) + data_sum(entries, n));
    assert_seqs_equal!(out.subrange(0, 4) == spec_u32_to_le_bytes(entries.len() as u32));
    assert(spec_read_u32(out, 0) == entries.len() as u32);
    assert((entries.len() as u32) as int == n);
    assert forall|i: int| 0 <= i < n implies spec_parse_entry(out, n, i) == Ok::<
        EntryModel,
        ErrModel,
    >(entries[i]) by {
        lemma_written_entry(entries, i);
    }
    lemma_parse_entries_ok(out, n, 0, entries);
}

} // verus!
