//! Reassembly of files from their data chunks.
//!
//! Sequence numbers start at zero, and the chunk marked last belongs to the
//! file: a file whose last chunk has sequence number `k` consists of the
//! chunks `0..=k`, in that order.

use crate::packet::{trim_zeros, Packet, PacketKind, PacketType};
use crate::{ClientError, ReassemblyError};
use std::collections::HashMap;
use vstd::prelude::*;
use vstd::slice::slice_to_vec;

verus! {

broadcast use vstd::std_specs::hash::group_hash_axioms;

/// The chunks received so far for one file, with its name once a header
/// has named it and its last sequence number once the last chunk came.
#[derive(Debug, Clone)]
pub struct FileData {
    file_name: Option<Vec<u8>>,
    last_sequence: Option<usize>,
    packets: HashMap<u16, Vec<u8>>,
}

pub struct FileDataView {
    pub file_name: Option<Seq<u8>>,
    pub last_sequence: Option<usize>,
    pub chunks: Map<u16, Seq<u8>>,
}

/// The chunks of a map of byte vectors, as byte sequences.
pub open spec fn chunks_view(m: Map<u16, Vec<u8>>) -> Map<u16, Seq<u8>> {
    m.map_values(|v: Vec<u8>| v@)
}

/// The first `n` chunks, concatenated in order of sequence number.
pub open spec fn concat_chunks(chunks: Map<u16, Seq<u8>>, n: nat) -> Seq<u8>
    decreases n,
{
    if n == 0 {
        Seq::empty()
    } else {
        concat_chunks(chunks, (n - 1) as nat) + chunks[(n - 1) as u16]
    }
}

impl FileDataView {
    pub open spec fn empty() -> FileDataView {
        FileDataView { file_name: None, last_sequence: None, chunks: Map::empty() }
    }

    /// The last sequence number is known and every chunk from zero up to
    /// it has arrived.
    pub open spec fn is_complete(self) -> bool {
        match self.last_sequence {
            Some(k) => k <= u16::MAX && forall|i: u16| i <= k ==> #[trigger] self.chunks.contains_key(i),
            None => false,
        }
    }

    /// The file's contents: its chunks `0..=k` in order.
    pub open spec fn serialized(self) -> Seq<u8> {
        concat_chunks(self.chunks, (self.last_sequence.unwrap() + 1) as nat)
    }

    /// Complete and named: ready to be stored.
    pub open spec fn is_ready(self) -> bool {
        self.is_complete() && self.file_name is Some
    }

    /// Why a file that is not ready cannot be stored.
    pub open spec fn failure(self) -> ReassemblyError {
        if !self.is_complete() {
            ReassemblyError::IncompleteFile
        } else {
            ReassemblyError::MissingFileName
        }
    }

    pub open spec fn with_name(self, name: Seq<u8>) -> FileDataView {
        FileDataView { file_name: Some(name), ..self }
    }

    pub open spec fn with_chunk(self, sequence: u16, bytes: Seq<u8>, is_last: bool) -> FileDataView {
        FileDataView {
            chunks: self.chunks.insert(sequence, bytes),
            last_sequence: if is_last {
                Some(sequence as usize)
            } else {
                self.last_sequence
            },
            ..self
        }
    }

    /// The accumulator after it has taken in a packet of the given kind.
    pub open spec fn applied(self, kind: PacketKind) -> FileDataView {
        match kind {
            PacketKind::Header(block) => self.with_name(trim_zeros(block)),
            PacketKind::Data(sequence, is_last, block) => self.with_chunk(sequence, block, is_last),
        }
    }
}

/// A chunk recorded without the last-chunk mark is stored as given under
/// its sequence number, and the last sequence number stays as it was.
pub proof fn lemma_chunk_recorded(f: FileDataView, sequence: u16, bytes: Seq<u8>)
    ensures
        f.with_chunk(sequence, bytes, false).chunks.contains_key(sequence),
        f.with_chunk(sequence, bytes, false).chunks[sequence] == bytes,
        f.with_chunk(sequence, bytes, false).last_sequence == f.last_sequence,
{
}

/// With last sequence number `k`, an accumulator is complete exactly when
/// it holds a chunk for every sequence number from zero to `k`; without
/// any one of those chunks it is incomplete.
pub proof fn lemma_complete_iff_all_chunks(f: FileDataView, k: u16, missing: u16)
    requires
        f.last_sequence == Some(k as usize),
        missing <= k,
    ensures
        f.is_complete() <==> forall|i: u16| i <= k ==> #[trigger] f.chunks.contains_key(i),
        !(FileDataView { chunks: f.chunks.remove(missing), ..f }).is_complete(),
{
    let g = FileDataView { chunks: f.chunks.remove(missing), ..f };
    assert(!g.chunks.contains_key(missing));
}

/// Recording again a chunk whose sequence number is already filled, with
/// any bytes, replaces the stored bytes and leaves completeness as it was.
pub proof fn lemma_duplicate_chunk(f: FileDataView, sequence: u16, bytes: Seq<u8>)
    requires
        f.chunks.contains_key(sequence),
    ensures
        f.with_chunk(sequence, bytes, false).chunks[sequence] == bytes,
        f.with_chunk(sequence, bytes, false).is_complete() == f.is_complete(),
{
    let g = f.with_chunk(sequence, bytes, false);
    assert(g.chunks.dom() =~= f.chunks.dom());
    if f.is_complete() {
        assert(g.is_complete());
    }
    if g.is_complete() {
        assert(f.is_complete());
    }
}

/// Accumulators with the same chunks and last sequence number serialize to
/// the same bytes, so serializing an unchanged accumulator twice gives
/// identical output.
pub proof fn lemma_serialize_deterministic(f: FileDataView, g: FileDataView)
    requires
        f.is_complete(),
        g.chunks == f.chunks,
        g.last_sequence == f.last_sequence,
    ensures
        g.is_complete(),
        g.serialized() == f.serialized(),
{
}

impl View for FileData {
    type V = FileDataView;

    closed spec fn view(&self) -> FileDataView {
        FileDataView {
            file_name: match self.file_name {
                Some(v) => Some(v@),
                None => None,
            },
            last_sequence: self.last_sequence,
            chunks: chunks_view(self.packets@),
        }
    }
}

impl FileData {
    pub fn new() -> (r: FileData)
        ensures
            r@ == FileDataView::empty(),
    {
        let r = FileData { file_name: None, last_sequence: None, packets: HashMap::new() };
        assert(r@.chunks =~= Map::empty());
        r
    }

    pub fn has_all_packets(&self) -> (r: bool)
        ensures
            r == self@.is_complete(),
    {
        match self.last_sequence {
            None => false,
            Some(k) => {
                if k > 0xffff {
                    return false;
                }
                let mut i: usize = 0;
                while i <= k
                    invariant
                        k <= u16::MAX,
                        self@.last_sequence == Some(k),
                        forall|j: u16| j < i ==> #[trigger] self@.chunks.contains_key(j),
                    decreases k + 1 - i,
                {
                    if !self.packets.contains_key(&(i as u16)) {
                        assert(!self@.chunks.contains_key(i as u16));
                        return false;
                    }
                    i = i + 1;
                }
                true
            },
        }
    }

    /// Stores `contents` as the chunk with sequence number `key`, replacing
    /// any chunk stored under it before.
    pub fn update_data_packet(&mut self, key: u16, contents: &[u8])
        ensures
            final(self)@ == (FileDataView {
                chunks: old(self)@.chunks.insert(key, contents@),
                ..old(self)@
            }),
    {
        self.packets.insert(key, slice_to_vec(contents));
        assert(self@.chunks =~= old(self)@.chunks.insert(key, contents@));
    }

    pub fn get_contents(&self) -> (r: &HashMap<u16, Vec<u8>>)
        ensures
            chunks_view(r@) == self@.chunks,
    {
        &self.packets
    }

    /// Records `num` as the sequence number of the last chunk.
    pub fn set_packet_count(&mut self, num: usize)
        ensures
            final(self)@ == (FileDataView { last_sequence: Some(num), ..old(self)@ }),
    {
        self.last_sequence = Some(num);
    }

    /// Records the file's name; a later header replaces an earlier one.
    pub fn record_header(&mut self, file_name: Vec<u8>)
        ensures
            final(self)@ == old(self)@.with_name(file_name@),
    {
        self.file_name = Some(file_name);
    }

    /// Stores a chunk, and when it is the last one records its sequence
    /// number as the file's last.
    pub fn record_chunk(&mut self, sequence: u16, bytes: &[u8], is_last: bool)
        ensures
            final(self)@ == old(self)@.with_chunk(sequence, bytes@, is_last),
    {
        self.update_data_packet(sequence, bytes);
        if is_last {
            self.set_packet_count(sequence as usize);
        }
    }

    /// The file's contents, when every chunk up to the last has arrived.
    pub fn serialize(&self) -> (r: Result<Vec<u8>, ReassemblyError>)
        ensures
            match r {
                Ok(v) => self@.is_complete() && v@ == self@.serialized(),
                Err(e) => !self@.is_complete() && e == ReassemblyError::IncompleteFile,
            },
    {
        if !self.has_all_packets() {
            return Err(ReassemblyError::IncompleteFile);
        }
        let k: usize = match self.last_sequence {
            Some(k) => k,
            None => 0,
        };
        let mut out: Vec<u8> = Vec::new();
        let mut i: usize = 0;
        while i <= k
            invariant
                k <= u16::MAX,
                i <= k + 1,
                self@.last_sequence == Some(k),
                self@.is_complete(),
                out@ == concat_chunks(self@.chunks, i as nat),
            decreases k + 1 - i,
        {
            let chunk: &Vec<u8> = match self.packets.get(&(i as u16)) {
                Some(c) => c,
                None => {
                    assert(self@.chunks.contains_key(i as u16));
                    return Err(ReassemblyError::MissingChunk(i as u16));
                },
            };
            let ghost before = out@;
            let mut j: usize = 0;
            while j < chunk.len()
                invariant
                    j <= chunk@.len(),
                    out@ == before + chunk@.subrange(0, j as int),
                decreases chunk@.len() - j,
            {
                out.push(chunk[j]);
                j = j + 1;
                assert(out@ =~= before + chunk@.subrange(0, j as int));
            }
            assert(chunk@.subrange(0, chunk@.len() as int) =~= chunk@);
            assert(self@.chunks[i as u16] == chunk@);
            i = i + 1;
        }
        Ok(out)
    }
}

/// One reassembled file, ready to be stored under its name.
#[derive(Debug, Clone)]
pub struct OutputFile {
    pub file_id: u8,
    pub name: Vec<u8>,
    pub contents: Vec<u8>,
}

/// All files of one reassembly session, keyed by file id.
#[derive(Debug)]
pub struct FileGroup {
    files: HashMap<u8, FileData>,
}

/// The accumulator for `id`: the stored one, or an empty one.
pub open spec fn accumulator_of(m: Map<u8, FileDataView>, id: u8) -> FileDataView {
    if m.contains_key(id) {
        m[id]
    } else {
        FileDataView::empty()
    }
}

/// Every file that the session holds is complete and named.
pub open spec fn all_ready(m: Map<u8, FileDataView>) -> bool {
    forall|id: u8| m.contains_key(id) ==> (#[trigger] m[id]).is_ready()
}

/// `out` lists, in increasing order of file id, the name and contents of
/// every file in `m`.
pub open spec fn lists_all_files(m: Map<u8, FileDataView>, out: Seq<OutputFile>) -> bool {
    &&& forall|j: int|
        0 <= j < out.len() ==> {
            let id = (#[trigger] out[j]).file_id;
            &&& m.contains_key(id)
            &&& out[j].name@ == m[id].file_name.unwrap()
            &&& out[j].contents@ == m[id].serialized()
        }
    &&& forall|i: int, j: int| 0 <= i < j < out.len() ==> out[i].file_id < out[j].file_id
    &&& forall|id: u8|
        #[trigger] m.contains_key(id) ==> exists|j: int| 0 <= j < out.len() && out[j].file_id == id
}

impl View for FileGroup {
    type V = Map<u8, FileDataView>;

    closed spec fn view(&self) -> Map<u8, FileDataView> {
        self.files@.map_values(|f: FileData| f@)
    }
}

impl Default for FileGroup {
    fn default() -> (r: FileGroup)
        ensures
            r@ == Map::<u8, FileDataView>::empty(),
    {
        FileGroup::new()
    }
}

impl FileGroup {
    pub fn new() -> (r: FileGroup)
        ensures
            r@ == Map::<u8, FileDataView>::empty(),
    {
        let r = FileGroup { files: HashMap::new() };
        assert(r@ =~= Map::empty());
        r
    }

    /// The accumulator of the file with id `file_id`, if any packet for it
    /// has arrived.
    pub fn file(&self, file_id: u8) -> (r: Option<&FileData>)
        ensures
            match r {
                Some(f) => self@.contains_key(file_id) && f@ == self@[file_id],
                None => !self@.contains_key(file_id),
            },
    {
        self.files.get(&file_id)
    }

    /// Routes a packet to the accumulator of its file, creating that
    /// accumulator on the first packet for the file.
    pub fn process_packet(&mut self, packet: Packet)
        ensures
            final(self)@ == old(self)@.insert(
                packet@.file_id,
                accumulator_of(old(self)@, packet@.file_id).applied(packet@.kind),
            ),
    {
        let f_id: u8 = packet.file_id();
        let ghost kind = packet@.kind;
        let mut file: FileData = match self.files.remove(&f_id) {
            Some(f) => f,
            None => FileData::new(),
        };
        assert(file@ == accumulator_of(old(self)@, f_id));
        match packet.get_contents() {
            PacketType::HeaderPacket(h) => {
                file.record_header(h.name_bytes());
            },
            PacketType::DataPacket(d) => {
                file.record_chunk(d.packet_num(), d.get_data().as_slice(), d.is_last());
            },
        }
        assert(file@ == accumulator_of(old(self)@, f_id).applied(kind));
        self.files.insert(f_id, file);
        assert(self@ =~= old(self)@.insert(f_id, accumulator_of(old(self)@, f_id).applied(kind)));
    }

    /// Whether the session holds exactly `expected_file_count` files and
    /// each of them is complete.
    pub fn received_all_packets(&self, expected_file_count: usize) -> (r: bool)
        ensures
            r == (self@.len() == expected_file_count && forall|id: u8|
                #[trigger] self@.contains_key(id) ==> self@[id].is_complete()),
    {
        assert(self@.dom() =~= self.files@.dom());
        if self.files.len() != expected_file_count {
            return false;
        }
        let mut id: u16 = 0;
        while id < 256
            invariant
                id <= 256,
                forall|j: u8| (j as u16) < id && #[trigger] self@.contains_key(j) ==> self@[j].is_complete(),
            decreases 256 - id,
        {
            match self.files.get(&(id as u8)) {
                Some(f) => {
                    if !f.has_all_packets() {
                        assert(self.files@.contains_key(id as u8));
                        assert(self@.contains_key(id as u8));
                        assert(self@[id as u8] == f@);
                        assert(!self@[id as u8].is_complete());
                        return false;
                    }
                },
                None => {},
            }
            id = id + 1;
        }
        true
    }

    /// Every file, reassembled and named, in increasing order of file id.
    /// Fails on the file with the smallest id that is incomplete or has no
    /// name, and reports that file's id.
    pub fn serialize_all(&self) -> (r: Result<Vec<OutputFile>, ClientError>)
        ensures
            match r {
                Ok(out) => all_ready(self@) && lists_all_files(self@, out@),
                Err(ClientError::FileError { file_id, error }) => {
                    &&& self@.contains_key(file_id)
                    &&& !self@[file_id].is_ready()
                    &&& error == self@[file_id].failure()
                    &&& forall|j: u8| j < file_id && #[trigger] self@.contains_key(j) ==> self@[j].is_ready()
                },
                Err(_) => false,
            },
    {
        let mut out: Vec<OutputFile> = Vec::new();
        let mut id: u16 = 0;
        while id < 256
            invariant
                id <= 256,
                forall|j: u8| (j as u16) < id && #[trigger] self@.contains_key(j) ==> self@[j].is_ready(),
                forall|j: int| 0 <= j < out@.len() ==> (#[trigger] out@[j]).file_id < id,
                lists_all_files(self@.restrict(Set::new(|j: u8| (j as u16) < id)), out@),
            decreases 256 - id,
        {
            let ghost prev = out@;
            let ghost low = self@.restrict(Set::new(|j: u8| (j as u16) < id));
            let ghost next = self@.restrict(Set::new(|j: u8| (j as u16) < id + 1));
            let f_id: u8 = id as u8;
            match self.files.get(&f_id) {
                Some(f) => {
                    let contents = match f.serialize() {
                        Ok(c) => c,
                        Err(e) => {
                            return Err(ClientError::FileError { file_id: f_id, error: e });
                        },
                    };
                    let name = match &f.file_name {
                        Some(n) => n.clone(),
                        None => {
                            return Err(
                                ClientError::FileError {
                                    file_id: f_id,
                                    error: ReassemblyError::MissingFileName,
                                },
                            );
                        },
                    };
                    out.push(OutputFile { file_id: f_id, name, contents });
                    proof {
                        assert forall|k: u8| #[trigger] next.contains_key(k) implies exists|j: int|
                            0 <= j < out@.len() && out@[j].file_id == k by {
                            if k == f_id {
                                assert(out@[prev.len() as int].file_id == k);
                            } else {
                                assert(low.contains_key(k));
                                let j = choose|j: int| 0 <= j < prev.len() && prev[j].file_id == k;
                                assert(out@[j] == prev[j]);
                            }
                        }
                        assert forall|j: int| 0 <= j < out@.len() implies {
                            let k = (#[trigger] out@[j]).file_id;
                            &&& next.contains_key(k)
                            &&& out@[j].name@ == next[k].file_name.unwrap()
                            &&& out@[j].contents@ == next[k].serialized()
                        } by {
                            if j < prev.len() {
                                assert(out@[j] == prev[j]);
                                assert(low.contains_key(prev[j].file_id));
                            }
                        }
                    }
                },
                None => {
                    proof {
                        assert(next =~= low);
                    }
                },
            }
            id = id + 1;
        }
        proof {
            assert(self@.restrict(Set::new(|j: u8| (j as u16) < id)) =~= self@);
        }
        Ok(out)
    }
}

} // verus!
