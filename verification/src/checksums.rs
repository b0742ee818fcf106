//! The digest engine: MD5 over byte streams, processed in bounded chunks, and
//! the lowercase-hex rendering used everywhere a digest is shown or stored.

use vstd::prelude::*;

verus! {

use vstd::slice::slice_subrange;

/// Bytes handed to the hasher per chunk, so that arbitrarily large streams
/// are digested without holding more than one buffer of them at once.
pub const BUFFER_SIZE: usize = 1024;

/// The MD5 digest (16 bytes) of a byte sequence, as the md-5 crate computes it.
pub uninterp spec fn md5_spec(data: Seq<u8>) -> Seq<u8>;

/// The bytes a running MD5 hasher has absorbed so far.
pub uninterp spec fn md5_absorbed(h: md5::Md5) -> Seq<u8>;

#[verifier::external_type_specification]
#[verifier::external_body]
pub struct ExMd5(md5::Md5);

/// Relies on md5::Md5 (digest::Digest::new): a fresh hasher has absorbed nothing.
#[verifier::external_body]
fn md5_new() -> (h: md5::Md5)
    ensures
        md5_absorbed(h) == Seq::<u8>::empty(),
{
    <md5::Md5 as md5::Digest>::new()
}

/// Relies on md5::Md5 (digest::Digest::update): updating appends the chunk to
/// the absorbed bytes.
#[verifier::external_body]
fn md5_update(h: &mut md5::Md5, chunk: &[u8])
    ensures
        md5_absorbed(*final(h)) == md5_absorbed(*old(h)) + chunk@,
{
    md5::Digest::update(h, chunk)
}

/// Relies on md5::Md5 (digest::Digest::finalize): the result is the 16-byte MD5
/// digest of exactly the absorbed bytes.
#[verifier::external_body]
fn md5_finalize(h: md5::Md5) -> (r: Vec<u8>)
    ensures
        r@ == md5_spec(md5_absorbed(h)),
        r@.len() == 16,
{
    md5::Digest::finalize(h).to_vec()
}

/// Digest a byte stream by feeding the hasher chunks of at most `BUFFER_SIZE`
/// bytes; the result is the MD5 digest of the whole stream.
pub fn md5sum(data: &[u8]) -> (r: Result<Vec<u8>, String>)
    ensures
        r matches Ok(digest) && digest@ == md5_spec(data@) && digest@.len() == 16,
{
    let mut h = md5_new();
    let len = data.len();
    let mut i: usize = 0;
    while i < len
        invariant
            i <= len,
            len == data@.len(),
            md5_absorbed(h) == data@.subrange(0, i as int),
        decreases len - i,
    {
        let j = if len - i < BUFFER_SIZE {
            len
        } else {
            i + BUFFER_SIZE
        };
        let chunk = slice_subrange(data, i, j);
        md5_update(&mut h, chunk);
        proof {
            assert(data@.subrange(0, i as int) + data@.subrange(i as int, j as int)
                == data@.subrange(0, j as int));
        }
        i = j;
    }
    proof {
        assert(data@.subrange(0, len as int) == data@);
    }
    Ok(md5_finalize(h))
}

/// The sixteen lowercase hexadecimal digits, in value order.
pub open spec fn hex_digits() -> Seq<char> {
    seq!['0', '1', '2', '3', '4', '5', '6', '7', '8', '9', 'a', 'b', 'c', 'd', 'e', 'f']
}

/// A byte sequence rendered as lowercase hex, two digits per byte.
pub open spec fn hex_of(data: Seq<u8>) -> Seq<char>
    decreases data.len(),
{
    if data.len() == 0 {
        Seq::empty()
    } else {
        seq![
            hex_digits()[(data[0] / 16) as int],
            hex_digits()[(data[0] % 16) as int],
        ] + hex_of(data.drop_first())
    }
}

proof fn lemma_hex_of_push(data: Seq<u8>, b: u8)
    ensures
        hex_of(data.push(b)) == hex_of(data) + seq![
            hex_digits()[(b / 16) as int],
            hex_digits()[(b % 16) as int],
        ],
    decreases data.len(),
{
    if data.len() == 0 {
        assert(data.push(b).drop_first() =~= Seq::<u8>::empty());
        assert(data.push(b)[0] == b);
        assert(hex_of(data.push(b)) == seq![
            hex_digits()[(b / 16) as int],
            hex_digits()[(b % 16) as int],
        ] + hex_of(data.push(b).drop_first()));
        assert(hex_of(data.push(b)) =~= hex_of(data) + seq![
            hex_digits()[(b / 16) as int],
            hex_digits()[(b % 16) as int],
        ]);
    } else {
        assert(data.push(b).drop_first() =~= data.drop_first().push(b));
        lemma_hex_of_push(data.drop_first(), b);
        assert(hex_of(data.push(b)) =~= hex_of(data) + seq![
            hex_digits()[(b / 16) as int],
            hex_digits()[(b % 16) as int],
        ]);
    }
}

/// Appends the given char to this string.
pub assume_specification[ String::push ](s: &mut String, ch: char)
    ensures
        final (s)@ == old(s)@.push(ch),
;

/// Render bytes as lowercase hex, two digits per byte.
pub fn to_hex_string(data: &Vec<u8>) -> (r: String)
    ensures
        r@ == hex_of(data@),
{
    let digits: [char; 16] = [
        '0', '1', '2', '3', '4', '5', '6', '7', '8', '9', 'a', 'b', 'c', 'd', 'e', 'f',
    ];
    let mut r = String::new();
    let len = data.len();
    let mut i: usize = 0;
    while i < len
        invariant
            i <= len,
            len == data@.len(),
            digits@ == hex_digits(),
            r@ == hex_of(data@.subrange(0, i as int)),
        decreases len - i,
    {
        let b = data[i];
        r.push(digits[(b / 16) as usize]);
        r.push(digits[(b % 16) as usize]);
        proof {
            lemma_hex_of_push(data@.subrange(0, i as int), b);
            assert(data@.subrange(0, i as int).push(b) =~= data@.subrange(0, i as int + 1));
        }
        i = i + 1;
    }
    proof {
        assert(data@.subrange(0, len as int) =~= data@);
    }
    r
}

/// The hex digest of a byte stream: what the manifest stores for each file,
/// and what the fingerprint of a serialized manifest is.
pub open spec fn digest_of(data: Seq<u8>) -> Seq<char> {
    hex_of(md5_spec(data))
}

/// Digest a byte stream and render it as a 32-character lowercase-hex string.
pub fn calculate_hash(data: &[u8]) -> (r: Result<String, String>)
    ensures
        r matches Ok(s) && s@ == digest_of(data@) && s@.len() == 32,
{
    match md5sum(data) {
        Ok(digest) => {
            proof {
                lemma_hex_of_len(md5_spec(data@));
            }
            Ok(to_hex_string(&digest))
        },
        Err(e) => Err(e),
    }
}

proof fn lemma_hex_of_len(data: Seq<u8>)
    ensures
        hex_of(data).len() == 2 * data.len(),
    decreases data.len(),
{
    if data.len() > 0 {
        lemma_hex_of_len(data.drop_first());
    }
}

/// One unit of checksum work: which file of which installation to digest.
#[derive(Debug)]
pub struct ChecksumGenerator<I> {
    pub id: I,
    pub install_path: String,
    pub path: String,
}

/// The outcome of one checksum unit: a digest for the file, a skip for the
/// manifest itself, or the error that ended the unit, always naming the
/// path.
#[derive(Debug)]
pub enum Progress {
    Digest(String, String),
    Skipped,
    Errored(String, String),
}

/// Whether a path ends in the manifest's own filename; such a path is never
/// hashed.
pub open spec fn is_manifest_path(p: Seq<char>) -> bool {
    let name = crate::manifest::MANIFEST_FILE_NAME@;
    p.len() >= name.len() && p.skip(p.len() - name.len()) == name
}

/// The skip policy: a path ending in the manifest's filename is skipped.
pub fn should_skip(path: &str) -> (r: bool)
    ensures
        r == is_manifest_path(path@),
{
    let pc = crate::text::chars_of(path);
    let mc = crate::text::chars_of(crate::manifest::MANIFEST_FILE_NAME);
    let np = pc.len();
    let nm = mc.len();
    if np < nm {
        return false;
    }
    let off = np - nm;
    let mut i: usize = 0;
    while i < nm
        invariant
            i <= nm,
            np == pc@.len(),
            nm == mc@.len(),
            np >= nm,
            off == np - nm,
            pc@ == path@,
            mc@ == crate::manifest::MANIFEST_FILE_NAME@,
            forall|m: int| 0 <= m < i ==> path@[off + m] == mc@[m],
        decreases nm - i,
    {
        if pc[off + i] != mc[i] {
            proof {
                assert(path@.skip(off as int)[i as int] != mc@[i as int]);
            }
            return false;
        }
        i = i + 1;
    }
    proof {
        assert(path@.skip(off as int) =~= mc@);
    }
    true
}

/// What the outcome of one unit must be, given its path and what reading
/// the file yielded.
pub open spec fn outcome_spec_holds(
    path: String,
    read: Result<Vec<u8>, String>,
    out: Progress,
) -> bool {
    if is_manifest_path(path@) {
        out is Skipped
    } else {
        match read {
            Ok(bytes) => out matches Progress::Digest(p, d) && p@ == path@ && d@ == digest_of(
                bytes@,
            ),
            Err(m) => out matches Progress::Errored(p, msg) && p@ == path@ && msg@ == m@,
        }
    }
}

/// Process one unit of checksum work. A path ending in the manifest's
/// filename yields `Skipped` whatever the read yielded, even an error; any
/// other path yields its digest, or the error that reading it produced.
pub fn unit_outcome(path: &String, read: &Result<Vec<u8>, String>) -> (r: Progress)
    ensures
        outcome_spec_holds(*path, *read, r),
{
    if should_skip(path.as_str()) {
        return Progress::Skipped;
    }
    match read {
        Ok(bytes) => {
            match calculate_hash(bytes.as_slice()) {
                Ok(d) => Progress::Digest(path.clone(), d),
                Err(_) => {
                    proof {
                        assert(false);
                    }
                    vstd::pervasive::unreached()
                },
            }
        },
        Err(m) => Progress::Errored(path.clone(), m.clone()),
    }
}

/// Fan-in of the worker pool: every input path yields exactly one outcome,
/// in input order — the completion signal the orchestrator counts on.
pub fn pool_outcomes(paths: &Vec<String>, reads: &Vec<Result<Vec<u8>, String>>) -> (r: Vec<
    Progress,
>)
    requires
        paths@.len() == reads@.len(),
    ensures
        r@.len() == paths@.len(),
        forall|i: int|
            0 <= i < r@.len() ==> outcome_spec_holds(paths@[i], reads@[i], #[trigger] r@[i]),
{
    let n = paths.len();
    let mut r: Vec<Progress> = Vec::new();
    let mut i: usize = 0;
    while i < n
        invariant
            i <= n,
            n == paths@.len(),
            n == reads@.len(),
            r@.len() == i,
            forall|m: int|
                0 <= m < i ==> outcome_spec_holds(paths@[m], reads@[m], #[trigger] r@[m]),
        decreases n - i,
    {
        let out = unit_outcome(&paths[i], &reads[i]);
        r.push(out);
        i = i + 1;
    }
    r
}

/// The path an outcome names, if it names one.
pub open spec fn outcome_path(out: Progress) -> Option<Seq<char>> {
    match out {
        Progress::Digest(p, _) => Some(p@),
        Progress::Errored(p, _) => Some(p@),
        Progress::Skipped => None,
    }
}

/// No duplicate paths among outcomes: distinct input paths give outcomes
/// that name distinct paths.
pub proof fn lemma_outcome_paths_distinct(
    paths: Seq<String>,
    reads: Seq<Result<Vec<u8>, String>>,
    outs: Seq<Progress>,
)
    requires
        paths.len() == reads.len(),
        outs.len() == paths.len(),
        forall|i: int|
            0 <= i < outs.len() ==> outcome_spec_holds(paths[i], reads[i], #[trigger] outs[i]),
        forall|i: int, j: int|
            0 <= i < j < paths.len() ==> (#[trigger] paths[i])@ != (#[trigger] paths[j])@,
    ensures
        forall|i: int, j: int|
            0 <= i < j < outs.len() && (#[trigger] outcome_path(outs[i])) is Some && (
            #[trigger] outcome_path(outs[j])) is Some ==> outcome_path(outs[i])
                != outcome_path(outs[j]),
{
    assert forall|i: int, j: int|
        0 <= i < j < outs.len() && (#[trigger] outcome_path(outs[i])) is Some && (
        #[trigger] outcome_path(outs[j])) is Some implies outcome_path(outs[i]) != outcome_path(
        outs[j],
    ) by {
        assert(outcome_spec_holds(paths[i], reads[i], outs[i]));
        assert(outcome_spec_holds(paths[j], reads[j], outs[j]));
        assert(outcome_path(outs[i]) == Some(paths[i]@));
        assert(outcome_path(outs[j]) == Some(paths[j]@));
        assert(paths[i]@ != paths[j]@);
    }
}

} // verus!
