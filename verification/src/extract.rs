//! The archive extractor: an ordered queue of compressed volumes applied
//! strictly in order to a target, with per-volume progress, an in-memory
//! model of what extraction leaves on disk, and the ordering law that a
//! later volume overwrites an earlier one.

use vstd::prelude::*;

verus! {

use crate::text::{dec_str, u32_to_string};
use std::collections::VecDeque;
use vstd::string::StringExecFns;

/// One extraction job: an ordered queue of volume paths and the directory
/// they unpack into.
pub struct Extraction<I> {
    pub id: I,
    pub from: VecDeque<String>,
    pub to: String,
}

/// Progress reported after each volume: how far the queue has come, in
/// whole percent, and the next volume's path, or `Done`.
#[derive(Debug)]
pub enum Progress {
    Started,
    Advanced(u32, String),
    Finished,
    Errored(String),
}

/// Where an extraction stands: waiting to start, working through the
/// queue, finished, or failed with the number of volumes that had been
/// applied when it failed — the position a caller could resume from.
pub enum ExtractionState {
    Start(String, VecDeque<String>, usize, usize),
    Extracting(String, VecDeque<String>, usize, usize),
    Finished,
    Failed(usize),
}

/// A queue position that the percent arithmetic can carry.
pub open spec fn counts_wf(done: int, total: int) -> bool {
    0 <= done <= total <= 100000
}

/// The whole percent completed, with an empty queue counting as complete.
pub open spec fn percent_of(done: int, total: int) -> int {
    if total == 0 {
        100
    } else {
        done * 100 / total
    }
}

/// The next volume to report: the front of the queue, or `Done`.
pub open spec fn front_name(queue: Seq<String>) -> Seq<char> {
    if queue.len() == 0 {
        "Done"@
    } else {
        queue[0]@
    }
}

fn front_or_done(queue: &VecDeque<String>) -> (r: String)
    ensures
        r@ == front_name(queue@),
{
    if queue.len() == 0 {
        "Done".to_owned()
    } else {
        queue[0].clone()
    }
}

fn percent_exec(done: usize, total: usize) -> (r: u32)
    requires
        counts_wf(done as int, total as int),
    ensures
        r as int == percent_of(done as int, total as int),
{
    if total == 0 {
        100
    } else {
        proof {
            assert((done as int) * 100 <= 10000000) by (nonlinear_arith)
                requires
                    0 <= done as int <= 100000,
            ;
            assert((done as int) * 100 / (total as int) <= 10000000) by (nonlinear_arith)
                requires
                    0 < total as int && 0 <= (done as int) * 100 <= 10000000,
            ;
        }
        ((done * 100) / total) as u32
    }
}

/// Start an extraction: report the initial progress and move to the
/// working state. Nothing has been applied yet.
pub fn extraction_begin(x: Extraction<usize>) -> (r: (Progress, ExtractionState))
    requires
        x.from@.len() <= 100000,
    ensures
        r.0 matches Progress::Advanced(p, name) && p as int == percent_of(0, x.from@.len() as int)
            && name@ == front_name(x.from@),
        r.1 matches ExtractionState::Extracting(target, queue, done, total) && target@ == x.to@
            && queue@ == x.from@ && done == 0 && total == x.from@.len(),
{
    let name = front_or_done(&x.from);
    let total = x.from.len();
    let p = percent_exec(0, total);
    (Progress::Advanced(p, name), ExtractionState::Extracting(x.to, x.from, 0, total))
}

/// The volume an extraction is waiting on: the front of the queue of a
/// working extraction, and nothing otherwise.
pub fn extraction_pending(state: &ExtractionState) -> (r: Option<String>)
    ensures
        match *state {
            ExtractionState::Extracting(_, ref queue, _, _) => match r {
                Some(v) => queue@.len() > 0 && v@ == queue@[0]@,
                None => queue@.len() == 0,
            },
            _ => r is None,
        },
{
    match state {
        ExtractionState::Extracting(_, queue, _, _) => {
            if queue.len() > 0 {
                Some(queue[0].clone())
            } else {
                None
            }
        },
        _ => None,
    }
}

/// Advance a working extraction by the outcome of unpacking the front
/// volume. An empty queue finishes; a successful volume leaves the queue
/// one shorter and reports the new percentage and the next volume; a
/// failure abandons the rest and records how many volumes had been
/// applied.
pub fn extraction_advance(state: ExtractionState, unpacked: Result<(), String>) -> (r: (
    Progress,
    ExtractionState,
))
    requires
        state matches ExtractionState::Extracting(_, queue, done, total) && counts_wf(
            done as int,
            total as int,
        ) && done + queue@.len() == total,
    ensures
        ({
            let queue = state->Extracting_1;
            let done = state->Extracting_2;
            let total = state->Extracting_3;
            if queue@.len() == 0 {
                r.0 is Finished && r.1 is Finished
            } else {
                match unpacked {
                    Ok(_) => {
                        &&& (r.0 matches Progress::Advanced(p, name) && p as int == percent_of(
                            done + 1,
                            total as int,
                        ) && name@ == front_name(queue@.drop_first()))
                        &&& (r.1 matches ExtractionState::Extracting(t, q, d, tt) && t@ == state
                            ->Extracting_0@ && q@ == queue@.drop_first() && d == done + 1 && tt
                            == total)
                    },
                    Err(m) => {
                        &&& (r.0 matches Progress::Errored(e) && e@ == m@)
                        &&& (r.1 matches ExtractionState::Failed(at) && at == done)
                    },
                }
            }
        }),
{
    match state {
        ExtractionState::Extracting(target, mut queue, done, total) => {
            match queue.pop_front() {
                None => (Progress::Finished, ExtractionState::Finished),
                Some(_front) => {
                    match unpacked {
                        Ok(_) => {
                            let name = front_or_done(&queue);
                            let p = percent_exec(done + 1, total);
                            (
                                Progress::Advanced(p, name),
                                ExtractionState::Extracting(target, queue, done + 1, total),
                            )
                        },
                        Err(m) => (Progress::Errored(m), ExtractionState::Failed(done)),
                    }
                },
            }
        },
        _ => {
            proof {
                assert(false);
            }
            vstd::pervasive::unreached()
        },
    }
}

/// The path of one numbered volume: `<source>/<game>_<index>.tar.gz`.
pub open spec fn volume_name(source: Seq<char>, game: Seq<char>, index: int) -> Seq<char> {
    source + seq!['/'] + game + seq!['_'] + dec_str(index) + ".tar.gz"@
}

/// The queue built from an existence probe: the numbered volumes that
/// exist, in index order; missing indices are left out, not an error.
pub open spec fn queue_spec(source: Seq<char>, game: Seq<char>, exists_flags: Seq<bool>) -> Seq<
    Seq<char>,
>
    decreases exists_flags.len(),
{
    if exists_flags.len() == 0 {
        Seq::empty()
    } else {
        queue_spec(source, game, exists_flags.drop_last()) + if exists_flags.last() {
            seq![volume_name(source, game, exists_flags.len() - 1)]
        } else {
            Seq::empty()
        }
    }
}

/// Build the extraction queue for the numbered volumes whose existence the
/// caller has probed: only existing indices are included, in order.
pub fn build_extraction_queue(source: &str, game: &str, exists_flags: &Vec<bool>) -> (r: Vec<
    String,
>)
    requires
        exists_flags@.len() <= 0xffff_ffff,
    ensures
        r@.len() == queue_spec(source@, game@, exists_flags@).len(),
        forall|i: int|
            0 <= i < r@.len() ==> (#[trigger] r@[i])@ == queue_spec(
                source@,
                game@,
                exists_flags@,
            )[i],
{
    let n = exists_flags.len();
    let mut r: Vec<String> = Vec::new();
    let ghost gq = |k: int| queue_spec(source@, game@, exists_flags@.subrange(0, k));
    let mut i: usize = 0;
    while i < n
        invariant
            i <= n,
            n == exists_flags@.len(),
            n <= 0xffff_ffff,
            r@.len() == queue_spec(source@, game@, exists_flags@.subrange(0, i as int)).len(),
            forall|m: int|
                0 <= m < r@.len() ==> (#[trigger] r@[m])@ == queue_spec(
                    source@,
                    game@,
                    exists_flags@.subrange(0, i as int),
                )[m],
        decreases n - i,
    {
        let ghost pre = queue_spec(source@, game@, exists_flags@.subrange(0, i as int));
        proof {
            assert(exists_flags@.subrange(0, i + 1).drop_last() =~= exists_flags@.subrange(
                0,
                i as int,
            ));
            assert(exists_flags@.subrange(0, i + 1).last() == exists_flags@[i as int]);
        }
        if exists_flags[i] {
            let mut name = source.to_owned();
            name.push('/');
            name.append(game);
            name.push('_');
            let num = u32_to_string(i as u32);
            name.append(num.as_str());
            name.append(".tar.gz");
            proof {
                assert(name@ =~= volume_name(source@, game@, i as int));
                assert(queue_spec(source@, game@, exists_flags@.subrange(0, i + 1)) =~= pre
                    + seq![volume_name(source@, game@, i as int)]);
            }
            r.push(name);
        } else {
            proof {
                assert(queue_spec(source@, game@, exists_flags@.subrange(0, i + 1)) =~= pre
                    + Seq::<Seq<char>>::empty());
            }
        }
        i = i + 1;
    }
    proof {
        assert(exists_flags@.subrange(0, n as int) =~= exists_flags@);
    }
    r
}

/// What one volume holds, as the flate2 and tar crates decode it: the
/// entries' paths and bytes, in archive order — a function of the volume's
/// bytes alone.
pub uninterp spec fn volume_entries(bytes: Seq<u8>) -> Seq<(Seq<char>, Seq<u8>)>;

/// Relies on flate2::read::GzDecoder and tar::Archive (entries, path,
/// read_to_end): decompress a volume held in memory and list its entries'
/// paths and contents, in archive order.
#[verifier::external_body]
pub fn decode_volume(bytes: &[u8]) -> (r: Result<Vec<(String, Vec<u8>)>, String>)
    ensures
        r matches Ok(v) ==> v@.len() == volume_entries(bytes@).len() && forall|i: int|
            0 <= i < v@.len() ==> (#[trigger] v@[i]).0@ == volume_entries(bytes@)[i].0
                && v@[i].1@ == volume_entries(bytes@)[i].1,
{
    let mut archive = tar::Archive::new(flate2::read::GzDecoder::new(std::io::Cursor::new(bytes)));
    let mut out: Vec<(String, Vec<u8>)> = Vec::new();
    for entry in archive.entries().map_err(|e| e.to_string())? {
        let mut entry = entry.map_err(|e| e.to_string())?;
        let path = entry.path().map_err(|e| e.to_string())?.to_string_lossy().into_owned();
        let mut data = Vec::new();
        std::io::Read::read_to_end(&mut entry, &mut data).map_err(|e| e.to_string())?;
        out.push((path, data));
    }
    Ok(out)
}

/// What a tree of extracted files holds: each path's content, later writes
/// winning.
pub open spec fn tree_map(entries: Seq<(String, Vec<u8>)>) -> Map<Seq<char>, Seq<u8>>
    decreases entries.len(),
{
    if entries.len() == 0 {
        Map::empty()
    } else {
        tree_map(entries.drop_last()).insert(entries.last().0@, entries.last().1@)
    }
}

/// A file tree as extraction leaves it: every write is kept in order, and
/// a path's content is whatever was written to it last.
pub struct FileTree {
    writes: Vec<(String, Vec<u8>)>,
}

impl View for FileTree {
    type V = Map<Seq<char>, Seq<u8>>;

    closed spec fn view(&self) -> Map<Seq<char>, Seq<u8>> {
        tree_map(self.writes@)
    }
}

/// Applying entries to a tree in order: each one overwrites what any
/// earlier write left at its path.
pub open spec fn apply_entries(
    m: Map<Seq<char>, Seq<u8>>,
    es: Seq<(Seq<char>, Seq<u8>)>,
) -> Map<Seq<char>, Seq<u8>>
    decreases es.len(),
{
    if es.len() == 0 {
        m
    } else {
        apply_entries(m, es.drop_last()).insert(es.last().0, es.last().1)
    }
}

/// The views of decoded entries.
pub open spec fn entry_views(es: Seq<(String, Vec<u8>)>) -> Seq<(Seq<char>, Seq<u8>)> {
    es.map_values(|e: (String, Vec<u8>)| (e.0@, e.1@))
}

impl FileTree {
    /// An empty tree.
    pub fn new() -> (r: FileTree)
        ensures
            r@ == Map::<Seq<char>, Seq<u8>>::empty(),
    {
        FileTree { writes: Vec::new() }
    }

    /// Write one file: its path now holds exactly these bytes.
    pub fn write(&mut self, path: String, content: Vec<u8>)
        ensures
            final (self)@ == old(self)@.insert(path@, content@),
    {
        self.writes.push((path, content));
        proof {
            assert(self.writes@.drop_last() =~= old(self).writes@);
        }
    }

    /// Read one file: the bytes most recently written to the path, if any
    /// write reached it.
    pub fn read(&self, path: &str) -> (r: Option<&Vec<u8>>)
        ensures
            match r {
                Some(v) => self@.contains_key(path@) && v@ == self@[path@],
                None => !self@.contains_key(path@),
            },
    {
        let n = self.writes.len();
        let mut i: usize = n;
        proof {
            assert(self.writes@.subrange(0, n as int) =~= self.writes@);
        }
        while i > 0
            invariant
                i <= n,
                n == self.writes@.len(),
                tree_map(self.writes@).contains_key(path@) == tree_map(
                    self.writes@.subrange(0, i as int),
                ).contains_key(path@),
                tree_map(self.writes@).contains_key(path@) ==> tree_map(self.writes@)[path@]
                    == tree_map(self.writes@.subrange(0, i as int))[path@],
            decreases i,
        {
            i = i - 1;
            proof {
                assert(self.writes@.subrange(0, i + 1).drop_last() =~= self.writes@.subrange(
                    0,
                    i as int,
                ));
                assert(self.writes@.subrange(0, i + 1).last() == self.writes@[i as int]);
                assert(tree_map(self.writes@.subrange(0, i + 1)) == tree_map(
                    self.writes@.subrange(0, i as int),
                ).insert(self.writes@[i as int].0@, self.writes@[i as int].1@));
            }
            if crate::text::str_eq(self.writes[i].0.as_str(), path) {
                return Some(&self.writes[i].1);
            }
            proof {
                assert(self.writes@[i as int].0@ != path@);
            }
        }
        proof {
            assert(self.writes@.subrange(0, n as int) =~= self.writes@);
            assert(self.writes@.subrange(0, 0) =~= Seq::<(String, Vec<u8>)>::empty());
            assert(tree_map(Seq::<(String, Vec<u8>)>::empty()) == Map::<Seq<char>, Seq<u8>>::empty());
        }
        None
    }

    /// Apply one decoded volume: its entries overwrite the tree in archive
    /// order.
    pub fn apply_volume(&mut self, entries: Vec<(String, Vec<u8>)>)
        ensures
            final (self)@ == apply_entries(old(self)@, entry_views(entries@)),
    {
        let n = entries.len();
        let ghost vs = entry_views(entries@);
        let mut i: usize = 0;
        let mut rest = entries;
        proof {
            assert(vs.subrange(0, 0) =~= Seq::<(Seq<char>, Seq<u8>)>::empty());
            assert(apply_entries(self@, vs.subrange(0, 0)) == self@);
        }
        while i < n
            invariant
                i <= n,
                n == vs.len(),
                n == rest@.len() + i,
                forall|m: int|
                    0 <= m < rest@.len() ==> ((#[trigger] rest@[m]).0@ == vs[m + i].0
                        && rest@[m].1@ == vs[m + i].1),
                self@ == apply_entries(old(self)@, vs.subrange(0, i as int)),
            decreases n - i,
        {
            let ghost rest0 = rest@;
            let e = rest.remove(0);
            proof {
                assert(rest0[0].0@ == vs[i as int].0 && rest0[0].1@ == vs[i as int].1);
                assert(rest@ =~= rest0.drop_first());
                assert forall|m: int| 0 <= m < rest@.len() implies ((#[trigger] rest@[m]).0@
                    == vs[m + i + 1].0 && rest@[m].1@ == vs[m + i + 1].1) by {
                    assert(rest@[m] == rest0[m + 1]);
                }
            }
            self.write(e.0, e.1);
            proof {
                assert(vs.subrange(0, i + 1).drop_last() =~= vs.subrange(0, i as int));
                assert(vs.subrange(0, i + 1).last() == vs[i as int]);
                assert(apply_entries(old(self)@, vs.subrange(0, i + 1)) == apply_entries(
                    old(self)@,
                    vs.subrange(0, i as int),
                ).insert(vs[i as int].0, vs[i as int].1));
            }
            i = i + 1;
        }
        proof {
            assert(vs.subrange(0, n as int) =~= vs);
        }
    }
}

/// The index of the last entry that writes `p`, or -1 when none does.
pub open spec fn last_index_of(es: Seq<(Seq<char>, Seq<u8>)>, p: Seq<char>) -> int
    decreases es.len(),
{
    if es.len() == 0 {
        -1
    } else if es.last().0 == p {
        es.len() - 1
    } else {
        last_index_of(es.drop_last(), p)
    }
}

/// What applying entries leaves at one path: the content of the last entry
/// that writes it, or what was there before if none does.
pub proof fn lemma_apply_entries_at(
    m: Map<Seq<char>, Seq<u8>>,
    es: Seq<(Seq<char>, Seq<u8>)>,
    p: Seq<char>,
)
    ensures
        last_index_of(es, p) >= 0 ==> last_index_of(es, p) < es.len() && apply_entries(
            m,
            es,
        ).contains_key(p) && apply_entries(m, es)[p] == es[last_index_of(es, p)].1,
        last_index_of(es, p) == -1 ==> apply_entries(m, es).contains_key(p) == m.contains_key(p)
            && (m.contains_key(p) ==> apply_entries(m, es)[p] == m[p]),
    decreases es.len(),
{
    if es.len() > 0 {
        lemma_apply_entries_at(m, es.drop_last(), p);
        if es.last().0 == p {
            assert(last_index_of(es, p) == es.len() - 1);
        } else {
            assert(last_index_of(es, p) == last_index_of(es.drop_last(), p));
            let li = last_index_of(es.drop_last(), p);
            if li >= 0 {
                assert(es.drop_last()[li] == es[li]);
            }
        }
    }
}

/// Extraction ordering: when a later volume writes a path, the tree holds
/// that volume's content for it afterwards, never an earlier volume's.
pub proof fn lemma_later_volume_wins(
    m: Map<Seq<char>, Seq<u8>>,
    first: Seq<(Seq<char>, Seq<u8>)>,
    second: Seq<(Seq<char>, Seq<u8>)>,
    p: Seq<char>,
)
    requires
        last_index_of(second, p) >= 0,
    ensures
        apply_entries(apply_entries(m, first), second)[p] == second[last_index_of(second, p)].1,
{
    lemma_apply_entries_at(apply_entries(m, first), second, p);
}

} // verus!
