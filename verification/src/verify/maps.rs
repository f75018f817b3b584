//! Verifying maps, block-hash segments and the digests composed from them.
//!
//! Two constructions are easily confused. `mapHash` is a digest over segment
//! bytes, one after the other. `blockMapHash` is a digest over raw digests, one
//! after the other: those of the block-hash segments, then those of the three map
//! segments.

use vstd::prelude::*;

use crate::arn::{from_utf8_lossy, lossy_text, member_of, names_resource, Arn, NameMapping};
use crate::bytes;
use crate::error::{error_text, Error, ErrorView, Locus};
use crate::hash::{
    computable, digest_of, digest_view, eq_ignore_case, same_but_for_case, sha512_digest, sha512_raw,
};
use crate::model::{
    algorithm_name, stored_views, HashAlgorithm, ObjectRole, StoredHash, StoredHashView,
};
use crate::text;
use crate::verify::blocks::{
    block_hash_segments, block_segments, holds_data, to_hex, volume_holds_stream_data,
};
use crate::verify::container::{block_object, split_block_object, Aff4Object, ObjectView};
use crate::verify::report::{
    check_of, classify_read_failure, compared_check, declined_check, failure_cause, in_step,
    in_step_chain, in_step_still, push_check, skipped_check, verdict, CheckView, Coverage, Declined,
    HashCheck, Outcome, ProgressObserver, ReportView, VerificationReport,
};
use crate::volume::Volume;

verus! {

/// The segment of a map's entries.
pub const MAP_SEGMENT: &'static str = "map";

/// The segment of a map's targets.
pub const IDX_SEGMENT: &'static str = "idx";

/// The segment of a map's path.
pub const MAP_PATH_SEGMENT: &'static str = "mapPath";

/// The block-hash algorithm suffixes in the order in which their digests are
/// composed.
pub open spec fn block_order() -> Seq<Seq<char>> {
    seq!["md5"@, "sha1"@, "sha256"@, "sha512"@, "blake2b"@]
}

/// The block-hash algorithm suffixes in the order in which their digests are
/// composed.
pub fn block_hash_order() -> (r: [&'static str; 5])
    ensures
        forall|i: int| 0 <= i < 5 ==> (#[trigger] r@[i])@ == block_order()[i],
{
    ["md5", "sha1", "sha256", "sha512", "blake2b"]
}

/// A map's three segments.
#[derive(Debug)]
pub struct MapSegments {
    /// The entries.
    pub map: Vec<u8>,
    /// The targets.
    pub idx: Vec<u8>,
    /// The path, empty where the segment is absent.
    pub path: Vec<u8>,
}

/// What [`MapSegments`] hold, as plain values.
#[verifier::ext_equal]
pub struct MapSegmentsView {
    /// The entries.
    pub map: Seq<u8>,
    /// The targets.
    pub idx: Seq<u8>,
    /// The path, empty where the segment is absent.
    pub path: Seq<u8>,
}

impl View for MapSegments {
    type V = MapSegmentsView;

    open spec fn view(&self) -> MapSegmentsView {
        MapSegmentsView { map: self.map@, idx: self.idx@, path: self.path@ }
    }
}

impl MapSegmentsView {
    /// The three one after the other.
    pub open spec fn concatenated(self) -> Seq<u8> {
        self.map + self.idx + self.path
    }
}

impl MapSegments {
    /// The three one after the other: what `mapHash` is a digest of.
    pub fn concatenated(&self) -> (r: Vec<u8>)
        ensures
            r@ == self@.concatenated(),
    {
        let mut all = bytes::copied(self.map.as_slice());
        bytes::append(&mut all, self.idx.as_slice());
        bytes::append(&mut all, self.path.as_slice());
        all
    }
}

/// A map's three segments, or why they cannot be read.
pub open spec fn map_segments<V: Volume>(base: Seq<char>, volume: &V) -> Result<
    MapSegmentsView,
    ErrorView,
> {
    let path_name = base + "/"@ + MAP_PATH_SEGMENT@;
    match volume.outcome(base + "/"@ + MAP_SEGMENT@) {
        Err(e) => Err(e),
        Ok(map) => match volume.outcome(base + "/"@ + IDX_SEGMENT@) {
            Err(e) => Err(e),
            Ok(idx) => if volume.lists(path_name) {
                match volume.outcome(path_name) {
                    Err(e) => Err(e),
                    Ok(path) => Ok(MapSegmentsView { map, idx, path }),
                }
            } else {
                Ok(MapSegmentsView { map, idx, path: Seq::empty() })
            },
        },
    }
}

/// Read a map's three segments, the path being optional.
pub fn read_map_segments<V: Volume>(base: &str, volume: &V) -> (r: Result<MapSegments, Error>)
    ensures
        (match r {
            Ok(s) => map_segments(base@, volume) == Ok::<MapSegmentsView, ErrorView>(s@),
            Err(e) => map_segments(base@, volume) == Err::<MapSegmentsView, ErrorView>(e@),
        }),
{
    let map = match volume.read_segment(text::cat3(base, "/", MAP_SEGMENT).as_str()) {
        Ok(data) => data,
        Err(e) => return Err(e),
    };
    let idx = match volume.read_segment(text::cat3(base, "/", IDX_SEGMENT).as_str()) {
        Ok(data) => data,
        Err(e) => return Err(e),
    };
    let path_name = text::cat3(base, "/", MAP_PATH_SEGMENT);
    let path = if volume.has_segment(path_name.as_str()) {
        match volume.read_segment(path_name.as_str()) {
            Ok(data) => data,
            Err(e) => return Err(e),
        }
    } else {
        Vec::new()
    };
    let r = MapSegments { map, idx, path };
    proof {
        if !volume.lists(path_name@) {
            assert(r@ =~= (MapSegmentsView { map: map@, idx: idx@, path: Seq::empty() }));
        }
    }
    Ok(r)
}

/// The bytes of the first `n` of some segments, one after the other, or the first
/// that cannot be read.
pub open spec fn joined_segments<V: Volume>(volume: &V, names: Seq<Seq<char>>, n: nat) -> Result<
    Seq<u8>,
    (Seq<char>, ErrorView),
>
    decreases n,
{
    if n == 0 {
        Ok(Seq::empty())
    } else {
        match joined_segments(volume, names, (n - 1) as nat) {
            Err(e) => Err(e),
            Ok(before) => match volume.outcome(names[n - 1]) {
                Err(e) => Err((names[n - 1], e)),
                Ok(data) => Ok(before + data),
            },
        }
    }
}

/// A segment that cannot be read fails the list the same way.
proof fn joined_fails<V: Volume>(volume: &V, names: Seq<Seq<char>>, m: nat, n: nat)
    requires
        m <= n,
        joined_segments(volume, names, m) is Err,
    ensures
        joined_segments(volume, names, n) == joined_segments(volume, names, m),
    decreases n,
{
    if m < n {
        joined_fails(volume, names, m, (n - 1) as nat);
    }
}

/// The bytes of some segments one after the other, or the first that cannot be
/// read.
pub fn read_joined<V: Volume>(volume: &V, names: &Vec<String>) -> (r: Result<
    Vec<u8>,
    (String, Error),
>)
    ensures
        (match r {
            Ok(data) => joined_segments(volume, text::texts(names@), names@.len()) == Ok::<
                Seq<u8>,
                (Seq<char>, ErrorView),
            >(data@),
            Err((name, e)) => joined_segments(volume, text::texts(names@), names@.len()) == Err::<
                Seq<u8>,
                (Seq<char>, ErrorView),
            >((name@, e@)),
        }),
{
    let mut out: Vec<u8> = Vec::new();
    let ghost all = text::texts(names@);
    let mut i: usize = 0;
    while i < names.len()
        invariant
            i <= names.len(),
            all == text::texts(names@),
            joined_segments(volume, all, i as nat) == Ok::<Seq<u8>, (Seq<char>, ErrorView)>(out@),
        decreases names.len() - i,
    {
        proof {
            assert(all[i as int] == names@[i as int]@);
            if joined_segments(volume, all, (i + 1) as nat) is Err {
                joined_fails(volume, all, (i + 1) as nat, names@.len());
            }
        }
        match volume.read_segment(names[i].as_str()) {
            Ok(data) => bytes::append(&mut out, data.as_slice()),
            Err(e) => return Err((names[i].clone(), e)),
        }
        i = i + 1;
    }
    Ok(out)
}

/// The streams that lines name and whose data a volume holds, in line order.
pub open spec fn held_streams<V: Volume>(lines: Seq<Seq<char>>, volume: &V) -> Seq<Seq<char>>
    decreases lines.len(),
{
    if lines.len() == 0 {
        Seq::empty()
    } else {
        let before = held_streams(lines.drop_last(), volume);
        if names_resource(lines.last()) && holds_data(volume, lines.last()) {
            before.push(lines.last())
        } else {
            before
        }
    }
}

/// The streams that a map's targets name and whose data a volume holds.
pub open spec fn local_streams<V: Volume>(idx: Seq<u8>, volume: &V) -> Seq<Seq<char>> {
    held_streams(text::content_lines(lossy_text(idx)), volume)
}

/// The names of a list of resources.
pub open spec fn arn_texts(list: Seq<Arn>) -> Seq<Seq<char>> {
    Seq::new(list.len(), |i: int| list[i]@)
}

/// The streams that a map's targets name and whose data a volume holds.
pub fn find_local_streams<V: Volume>(idx: &[u8], volume: &V) -> (r: Vec<Arn>)
    ensures
        arn_texts(r@) == local_streams(idx@, volume),
{
    let content = from_utf8_lossy(idx);
    let lines = text::lines(content.as_str());
    let ghost all = text::texts(lines@);
    let mut out: Vec<Arn> = Vec::new();
    let mut i: usize = 0;
    proof {
        assert(arn_texts(out@) == Seq::<Seq<char>>::empty());
    }
    while i < lines.len()
        invariant
            i <= lines.len(),
            all == text::texts(lines@),
            arn_texts(out@) == held_streams(all.take(i as int), volume),
        decreases lines.len() - i,
    {
        proof {
            assert(all.take(i + 1).drop_last() == all.take(i as int));
            assert(all.take(i + 1).last() == lines@[i as int]@);
        }
        match Arn::parse(lines[i].as_str(), &Locus::new("")) {
            Ok(arn) => {
                if volume_holds_stream_data(volume, &arn) {
                    let ghost before = out@;
                    out.push(arn);
                    proof {
                        assert(arn_texts(out@) == arn_texts(before).push(arn@));
                    }
                }
            },
            Err(_) => {},
        }
        i = i + 1;
    }
    proof {
        assert(all.take(i as int) == all);
    }
    out
}

/// What is said of a segment that cannot be read.
pub open spec fn unreadable_text(name: Seq<char>, e: ErrorView) -> Seq<char> {
    name + " could not be read: "@ + error_text(e)
}

/// The digests of a stream's block-hash segments under the first `n` algorithms
/// of the composition order, or what cannot be read.
pub open spec fn stream_digests<V: Volume>(volume: &V, base: Seq<char>, n: nat) -> Result<
    Seq<u8>,
    Seq<char>,
>
    decreases n,
{
    if n == 0 {
        Ok(Seq::empty())
    } else {
        match stream_digests(volume, base, (n - 1) as nat) {
            Err(e) => Err(e),
            Ok(before) => {
                let names = block_segments(volume, base, block_order()[n - 1]);
                if names.len() == 0 {
                    Ok(before)
                } else {
                    match joined_segments(volume, names, names.len()) {
                        Err((name, e)) => Err(unreadable_text(name, e)),
                        Ok(data) => Ok(before + sha512_digest(data)),
                    }
                }
            },
        }
    }
}

/// The digests of the block-hash segments of the first `n` of some streams.
pub open spec fn streams_digests<V: Volume>(volume: &V, streams: Seq<Seq<char>>, n: nat) -> Result<
    Seq<u8>,
    Seq<char>,
>
    decreases n,
{
    if n == 0 {
        Ok(Seq::empty())
    } else {
        match streams_digests(volume, streams, (n - 1) as nat) {
            Err(e) => Err(e),
            Ok(before) => match member_of(
                streams[n - 1],
                volume.name(),
                NameMapping::Escaped,
            ) {
                None => Ok(before),
                Some(base) => match stream_digests(volume, base, 5) {
                    Err(e) => Err(e),
                    Ok(more) => Ok(before + more),
                },
            },
        }
    }
}

/// What `blockMapHash` is a digest of: the digests of the block-hash segments of
/// the streams a volume holds, then those of the three map segments.
pub open spec fn block_map_input<V: Volume>(
    volume: &V,
    streams: Seq<Seq<char>>,
    segments: MapSegmentsView,
) -> Result<Seq<u8>, Seq<char>> {
    match streams_digests(volume, streams, streams.len()) {
        Err(e) => Err(e),
        Ok(blocks) => Ok(
            blocks + sha512_digest(segments.map) + sha512_digest(segments.idx) + sha512_digest(
                segments.path,
            ),
        ),
    }
}

/// An algorithm whose segments cannot be read fails the stream the same way.
proof fn stream_digests_fails<V: Volume>(volume: &V, base: Seq<char>, m: nat, n: nat)
    requires
        m <= n,
        stream_digests(volume, base, m) is Err,
    ensures
        stream_digests(volume, base, n) == stream_digests(volume, base, m),
    decreases n,
{
    if m < n {
        stream_digests_fails(volume, base, m, (n - 1) as nat);
    }
}

/// A stream whose segments cannot be read fails the list the same way.
proof fn streams_digests_fails<V: Volume>(volume: &V, streams: Seq<Seq<char>>, m: nat, n: nat)
    requires
        m <= n,
        streams_digests(volume, streams, m) is Err,
    ensures
        streams_digests(volume, streams, n) == streams_digests(volume, streams, m),
    decreases n,
{
    if m < n {
        streams_digests_fails(volume, streams, m, (n - 1) as nat);
    }
}

/// The digests of one stream's block-hash segments, in composition order.
fn digest_stream_segments<V: Volume>(volume: &V, base: &str) -> (r: Result<Vec<u8>, String>)
    ensures
        (match r {
            Ok(data) => stream_digests(volume, base@, 5) == Ok::<Seq<u8>, Seq<char>>(data@),
            Err(e) => stream_digests(volume, base@, 5) == Err::<Seq<u8>, Seq<char>>(e@),
        }),
{
    let order = block_hash_order();
    let mut out: Vec<u8> = Vec::new();
    let mut i: usize = 0;
    while i < 5
        invariant
            i <= 5,
            forall|k: int| 0 <= k < 5 ==> (#[trigger] order@[k])@ == block_order()[k],
            stream_digests(volume, base@, i as nat) == Ok::<Seq<u8>, Seq<char>>(out@),
        decreases 5 - i,
    {
        let suffix: &'static str = order[i];
        proof {
            assert(suffix@ == block_order()[i as int]);
            if stream_digests(volume, base@, (i + 1) as nat) is Err {
                stream_digests_fails(volume, base@, (i + 1) as nat, 5);
            }
        }
        let names = block_hash_segments(volume, base, suffix);
        proof {
            assert(text::texts(names@).len() == names@.len());
        }
        if names.len() > 0 {
            match read_joined(volume, &names) {
                Ok(data) => bytes::append(&mut out, sha512_raw(data.as_slice()).as_slice()),
                Err((name, e)) => return Err(
                    text::cat3(name.as_str(), " could not be read: ", e.to_string().as_str()),
                ),
            }
        }
        i = i + 1;
    }
    Ok(out)
}

/// What `blockMapHash` is a digest of, or the segment that cannot be read.
///
/// `streams` are those whose data the volume holds.
pub fn block_map_hash_input<V: Volume>(volume: &V, streams: &Vec<Arn>, segments: &MapSegments) -> (r:
    Result<Vec<u8>, String>)
    ensures
        (match r {
            Ok(data) => block_map_input(volume, arn_texts(streams@), segments@) == Ok::<
                Seq<u8>,
                Seq<char>,
            >(data@),
            Err(e) => block_map_input(volume, arn_texts(streams@), segments@) == Err::<
                Seq<u8>,
                Seq<char>,
            >(e@),
        }),
{
    let volume_arn = volume.arn();
    let ghost all = arn_texts(streams@);
    let mut input: Vec<u8> = Vec::new();
    let mut i: usize = 0;
    while i < streams.len()
        invariant
            i <= streams.len(),
            all == arn_texts(streams@),
            volume_arn@ == volume.name(),
            streams_digests(volume, all, i as nat) == Ok::<Seq<u8>, Seq<char>>(input@),
        decreases streams.len() - i,
    {
        proof {
            assert(all[i as int] == streams@[i as int]@);
            if streams_digests(volume, all, (i + 1) as nat) is Err {
                streams_digests_fails(volume, all, (i + 1) as nat, all.len());
            }
        }
        match streams[i].member_name(&volume_arn, NameMapping::Escaped) {
            None => {},
            Some(base) => match digest_stream_segments(volume, base.as_str()) {
                Ok(more) => bytes::append(&mut input, more.as_slice()),
                Err(e) => return Err(e),
            },
        }
        i = i + 1;
    }
    bytes::append(&mut input, sha512_raw(segments.map.as_slice()).as_slice());
    bytes::append(&mut input, sha512_raw(segments.idx.as_slice()).as_slice());
    bytes::append(&mut input, sha512_raw(segments.path.as_slice()).as_slice());
    Ok(input)
}

/// What is said of an algorithm that this library does not compute.
pub open spec fn uncomputable_text(a: HashAlgorithm) -> Seq<char> {
    "this build cannot compute "@ + algorithm_name(a)
}

/// What is said of an algorithm that this library does not compute.
pub fn uncomputable(a: HashAlgorithm) -> (r: String)
    ensures
        r@ == uncomputable_text(a),
{
    text::cat2("this build cannot compute ", a.name())
}

/// A recorded digest compared with the digest of some bytes.
pub open spec fn digest_check(
    subject: Seq<char>,
    role: ObjectRole,
    hash: StoredHashView,
    coverage: Coverage,
    data: Seq<u8>,
) -> CheckView {
    if computable(hash.algorithm) {
        compared_check(subject, role, hash, coverage, digest_view(hash.algorithm, data))
    } else {
        declined_check(subject, role, hash, coverage, uncomputable_text(hash.algorithm))
    }
}

/// Compare a recorded digest with the digest of some bytes.
pub(crate) fn push_digest_check<P: ProgressObserver>(
    subject: &Arn,
    role: ObjectRole,
    hash: &StoredHash,
    coverage: Coverage,
    data: &[u8],
    report: &mut VerificationReport,
    progress: &mut P,
)
    ensures
        final(report)@ == old(report)@.check(digest_check(subject@, role, hash@, coverage, data@)),
        in_step(
            old(progress).log(),
            old(report)@.checks,
            final(progress).log(),
            final(report)@.checks,
        ),
{
    let check = match digest_of(hash.algorithm, data) {
        Some(computed) => HashCheck::compared(subject, role, hash, coverage, &computed),
        None => HashCheck::declined(
            subject,
            role,
            hash,
            coverage,
            uncomputable(hash.algorithm).as_str(),
        ),
    };
    push_check(report, progress, check);
}

/// A recorded `blockMapHash` compared with the digest of its input.
pub open spec fn block_map_check(
    subject: Seq<char>,
    role: ObjectRole,
    hash: StoredHashView,
    input: Seq<u8>,
) -> CheckView {
    let actual = text::hex(sha512_digest(input));
    check_of(
        subject,
        role,
        hash,
        Coverage::Composite,
        actual,
        verdict(same_but_for_case(actual, hash.hex)),
    )
}

/// Compare a recorded `blockMapHash` with the digest of its input.
///
/// The recorded datatype names the construction while the value is a SHA-512, so
/// the values are compared and the datatype is left as it is.
pub(crate) fn push_block_map_check<P: ProgressObserver>(
    subject: &Arn,
    role: ObjectRole,
    hash: &StoredHash,
    input: &[u8],
    report: &mut VerificationReport,
    progress: &mut P,
)
    ensures
        final(report)@ == old(report)@.check(block_map_check(subject@, role, hash@, input@)),
        in_step(
            old(progress).log(),
            old(report)@.checks,
            final(progress).log(),
            final(report)@.checks,
        ),
{
    let actual = to_hex(sha512_raw(input).as_slice());
    let outcome = if eq_ignore_case(actual.as_str(), hash.hex.as_str()) {
        Outcome::Match
    } else {
        Outcome::Mismatch
    };
    push_check(
        report,
        progress,
        HashCheck::concluded(subject, role, hash, Coverage::Composite, actual, outcome),
    );
}

/// One check per recorded digest, none recomputed, all for the same reason.
pub open spec fn all_skipped(
    subject: Seq<char>,
    role: ObjectRole,
    hashes: Seq<StoredHashView>,
    coverage: Coverage,
    reason: Seq<char>,
    cause: Declined,
) -> Seq<CheckView> {
    Seq::new(
        hashes.len(),
        |i: int| skipped_check(subject, role, hashes[i], coverage, reason, cause),
    )
}

/// Record that none of some digests was recomputed, all for the same reason.
pub(crate) fn push_all_skipped<P: ProgressObserver>(
    subject: &Arn,
    role: ObjectRole,
    hashes: &Vec<StoredHash>,
    coverage: Coverage,
    reason: &str,
    cause: Declined,
    report: &mut VerificationReport,
    progress: &mut P,
)
    ensures
        final(report)@ == old(report)@.all_checks(
            all_skipped(subject@, role, stored_views(hashes@), coverage, reason@, cause),
        ),
        in_step(
            old(progress).log(),
            old(report)@.checks,
            final(progress).log(),
            final(report)@.checks,
        ),
{
    let ghost all = all_skipped(subject@, role, stored_views(hashes@), coverage, reason@, cause);
    let mut i: usize = 0;
    proof {
        assert(old(report)@.checks + all.take(0) =~= old(report)@.checks);
        in_step_still(progress.log(), report@.checks);
        assert(report@ =~= old(report)@.all_checks(all.take(0)));
    }
    while i < hashes.len()
        invariant
            i <= hashes.len(),
            all == all_skipped(subject@, role, stored_views(hashes@), coverage, reason@, cause),
            report@ == old(report)@.all_checks(all.take(i as int)),
            in_step(
                old(progress).log(),
                old(report)@.checks,
                progress.log(),
                report@.checks,
            ),
        decreases hashes.len() - i,
    {
        let check = match cause {
            Declined::Unreadable => HashCheck::unreadable(
                subject,
                role,
                &hashes[i],
                coverage,
                reason,
            ),
            Declined::NotSupported => HashCheck::declined(
                subject,
                role,
                &hashes[i],
                coverage,
                reason,
            ),
        };
        let ghost log1 = progress.log();
        let ghost checks1 = report@.checks;
        push_check(report, progress, check);
        proof {
            in_step_chain(
                old(progress).log(),
                old(report)@.checks,
                log1,
                checks1,
                progress.log(),
                report@.checks,
            );
            assert(check@ == all[i as int]);
            assert(all.take(i + 1) =~= all.take(i as int).push(check@));
            assert(old(report)@.checks + all.take(i + 1) =~= (old(report)@.checks + all.take(
                i as int,
            )).push(check@));
            assert(report@ =~= old(report)@.all_checks(all.take(i + 1)));
        }
        i = i + 1;
    }
    proof {
        assert(all.take(i as int) =~= all);
    }
}

/// What is said of a map whose segments another volume holds.
pub open spec fn map_elsewhere_text() -> Seq<char> {
    "the map's segments are stored in another volume"@
}

/// What is said of a map whose segments cannot be read.
pub open spec fn map_unreadable_text(e: ErrorView) -> Seq<char> {
    "the map's segments could not be read: "@ + error_text(e)
}

/// One digest that a map records, compared with what its segments give.
pub open spec fn map_check<V: Volume>(
    object: ObjectView,
    hash: StoredHashView,
    segments: MapSegmentsView,
    volume: &V,
) -> CheckView {
    if hash.predicate == "mapPointHash"@ {
        digest_check(object.arn, object.role, hash, Coverage::Segment, segments.map)
    } else if hash.predicate == "mapIdxHash"@ {
        digest_check(object.arn, object.role, hash, Coverage::Segment, segments.idx)
    } else if hash.predicate == "mapPathHash"@ {
        digest_check(object.arn, object.role, hash, Coverage::Segment, segments.path)
    } else if hash.predicate == "mapHash"@ {
        digest_check(object.arn, object.role, hash, Coverage::Composite, segments.concatenated())
    } else if hash.predicate == "blockMapHash"@ {
        match block_map_input(volume, local_streams(segments.idx, volume), segments) {
            Ok(input) => block_map_check(object.arn, object.role, hash, input),
            Err(reason) => skipped_check(
                object.arn,
                object.role,
                hash,
                Coverage::Composite,
                "block-hash segment "@ + reason,
                Declined::Unreadable,
            ),
        }
    } else {
        declined_check(
            object.arn,
            object.role,
            hash,
            Coverage::Composite,
            "aff4tools has not identified what "@ + hash.predicate + " is computed over"@,
        )
    }
}

/// Every check that verifying a map gives.
pub open spec fn map_checks<V: Volume>(object: ObjectView, volume: &V) -> Seq<CheckView> {
    match member_of(object.arn, volume.name(), NameMapping::Escaped) {
        None => all_skipped(
            object.arn,
            object.role,
            object.hashes,
            Coverage::Segment,
            map_elsewhere_text(),
            Declined::NotSupported,
        ),
        Some(base) => match map_segments(base, volume) {
            Err(e) => all_skipped(
                object.arn,
                object.role,
                object.hashes,
                Coverage::Segment,
                map_unreadable_text(e),
                failure_cause(e.kind),
            ),
            Ok(segments) => Seq::new(
                object.hashes.len(),
                |i: int| map_check(object, object.hashes[i], segments, volume),
            ),
        },
    }
}

/// Verify a map's segment digests and the digests composed from them.
pub fn verify_map<V: Volume, P: ProgressObserver>(
    object: &Aff4Object,
    volume: &V,
    report: &mut VerificationReport,
    progress: &mut P,
)
    ensures
        final(report)@ == old(report)@.all_checks(map_checks(object@, volume)),
        in_step(
            old(progress).log(),
            old(report)@.checks,
            final(progress).log(),
            final(report)@.checks,
        ),
{
    let base = match object.arn.member_name(&volume.arn(), NameMapping::Escaped) {
        Some(base) => base,
        None => {
            push_all_skipped(
                &object.arn,
                object.role,
                &object.hashes,
                Coverage::Segment,
                "the map's segments are stored in another volume",
                Declined::NotSupported,
                report,
                progress,
            );
            return;
        },
    };
    let segments = match read_map_segments(base.as_str(), volume) {
        Ok(segments) => segments,
        Err(e) => {
            let reason = text::cat2(
                "the map's segments could not be read: ",
                e.to_string().as_str(),
            );
            push_all_skipped(
                &object.arn,
                object.role,
                &object.hashes,
                Coverage::Segment,
                reason.as_str(),
                classify_read_failure(&e),
                report,
                progress,
            );
            return;
        },
    };
    let local = find_local_streams(segments.idx.as_slice(), volume);
    let ghost all = map_checks(object@, volume);
    let mut i: usize = 0;
    proof {
        assert(old(report)@.checks + all.take(0) =~= old(report)@.checks);
        in_step_still(progress.log(), report@.checks);
        assert(report@ =~= old(report)@.all_checks(all.take(0)));
        assert(all.len() == object.hashes@.len());
    }
    while i < object.hashes.len()
        invariant
            i <= object.hashes.len(),
            all == map_checks(object@, volume),
            all.len() == object.hashes@.len(),
            member_of(object@.arn, volume.name(), NameMapping::Escaped) == Some(base@),
            map_segments(base@, volume) == Ok::<MapSegmentsView, ErrorView>(segments@),
            arn_texts(local@) == local_streams(segments@.idx, volume),
            report@ == old(report)@.all_checks(all.take(i as int)),
            in_step(
                old(progress).log(),
                old(report)@.checks,
                progress.log(),
                report@.checks,
            ),
        decreases object.hashes.len() - i,
    {
        let hash = &object.hashes[i];
        let ghost log1 = progress.log();
        let ghost before = report@;
        proof {
            assert(object@.hashes[i as int] == hash@);
            assert(all[i as int] == map_check(object@, hash@, segments@, volume));
        }
        verify_map_digest(object, hash, &segments, &local, volume, report, progress);
        proof {
            in_step_chain(
                old(progress).log(),
                old(report)@.checks,
                log1,
                before.checks,
                progress.log(),
                report@.checks,
            );
            assert(all.take(i + 1) =~= all.take(i as int).push(all[i as int]));
            assert(old(report)@.checks + all.take(i + 1) =~= (old(report)@.checks + all.take(
                i as int,
            )).push(all[i as int]));
            assert(report@ =~= old(report)@.all_checks(all.take(i + 1)));
        }
        i = i + 1;
    }
    proof {
        assert(all.take(i as int) =~= all);
    }
}

/// Verify one digest that a map records.
fn verify_map_digest<V: Volume, P: ProgressObserver>(
    object: &Aff4Object,
    hash: &StoredHash,
    segments: &MapSegments,
    local: &Vec<Arn>,
    volume: &V,
    report: &mut VerificationReport,
    progress: &mut P,
)
    requires
        arn_texts(local@) == local_streams(segments@.idx, volume),
    ensures
        final(report)@ == old(report)@.check(map_check(object@, hash@, segments@, volume)),
        in_step(
            old(progress).log(),
            old(report)@.checks,
            final(progress).log(),
            final(report)@.checks,
        ),
{
    let predicate = hash.predicate.as_str();
    if text::same(predicate, "mapPointHash") {
        push_digest_check(
            &object.arn,
            object.role,
            hash,
            Coverage::Segment,
            segments.map.as_slice(),
            report,
            progress,
        );
    } else if text::same(predicate, "mapIdxHash") {
        push_digest_check(
            &object.arn,
            object.role,
            hash,
            Coverage::Segment,
            segments.idx.as_slice(),
            report,
            progress,
        );
    } else if text::same(predicate, "mapPathHash") {
        push_digest_check(
            &object.arn,
            object.role,
            hash,
            Coverage::Segment,
            segments.path.as_slice(),
            report,
            progress,
        );
    } else if text::same(predicate, "mapHash") {
        push_digest_check(
            &object.arn,
            object.role,
            hash,
            Coverage::Composite,
            segments.concatenated().as_slice(),
            report,
            progress,
        );
    } else if text::same(predicate, "blockMapHash") {
        match block_map_hash_input(volume, local, segments) {
            Ok(input) => push_block_map_check(
                &object.arn,
                object.role,
                hash,
                input.as_slice(),
                report,
                progress,
            ),
            Err(reason) => {
                let reason = text::cat2("block-hash segment ", reason.as_str());
                push_check(
                    report,
                    progress,
                    HashCheck::unreadable(
                        &object.arn,
                        object.role,
                        hash,
                        Coverage::Composite,
                        reason.as_str(),
                    ),
                );
            },
        }
    } else {
        let reason = text::cat3(
            "aff4tools has not identified what ",
            predicate,
            " is computed over",
        );
        push_check(
            report,
            progress,
            HashCheck::declined(
                &object.arn,
                object.role,
                hash,
                Coverage::Composite,
                reason.as_str(),
            ),
        );
    }
}

/// What is said of an object of per-chunk digests that names no stream.
pub open spec fn nameless_blocks_text(arn: Seq<char>) -> Seq<char> {
    arn
        + " does not name a stream and algorithm, so the segments it covers cannot be identified"@
}

/// What verifying an object of per-chunk digests adds to a report.
pub open spec fn block_object_report<V: Volume>(report: ReportView, object: ObjectView, volume: &V) -> ReportView {
    match block_object(object.arn) {
        None => report.all_checks(
            all_skipped(
                object.arn,
                object.role,
                object.hashes,
                Coverage::Segment,
                nameless_blocks_text(object.arn),
                Declined::NotSupported,
            ),
        ),
        Some((stream, suffix)) => {
            let base = if names_resource(stream) {
                member_of(stream, volume.name(), NameMapping::Escaped)
            } else {
                None
            };
            match base {
                None => report.all_checks(
                    all_skipped(
                        object.arn,
                        object.role,
                        object.hashes,
                        Coverage::Segment,
                        "the block-hash segments are stored in another volume"@,
                        Declined::NotSupported,
                    ),
                ),
                Some(base) => {
                    let names = block_segments(volume, base, suffix);
                    match joined_segments(volume, names, names.len()) {
                        Err((name, e)) => {
                            let reason = "block-hash segment "@ + unreadable_text(name, e);
                            report.note(reason).all_checks(
                                all_skipped(
                                    object.arn,
                                    object.role,
                                    object.hashes,
                                    Coverage::Segment,
                                    reason,
                                    failure_cause(e.kind),
                                ),
                            )
                        },
                        Ok(data) => if names.len() == 0 {
                            report.all_checks(
                                all_skipped(
                                    object.arn,
                                    object.role,
                                    object.hashes,
                                    Coverage::Segment,
                                    "no "@ + suffix + " block-hash segments are stored under "@
                                        + base,
                                    Declined::NotSupported,
                                ),
                            )
                        } else {
                            report.all_checks(
                                all_digest_checks(
                                    object.arn,
                                    object.role,
                                    object.hashes,
                                    Coverage::Segment,
                                    data,
                                ),
                            )
                        },
                    }
                },
            }
        },
    }
}

/// One check per recorded digest, each against the same bytes.
pub open spec fn all_digest_checks(
    subject: Seq<char>,
    role: ObjectRole,
    hashes: Seq<StoredHashView>,
    coverage: Coverage,
    data: Seq<u8>,
) -> Seq<CheckView> {
    Seq::new(
        hashes.len(),
        |i: int| digest_check(subject, role, hashes[i], coverage, data),
    )
}

/// Compare each of some recorded digests with the digest of the same bytes.
pub(crate) fn push_all_digest_checks<P: ProgressObserver>(
    subject: &Arn,
    role: ObjectRole,
    hashes: &Vec<StoredHash>,
    coverage: Coverage,
    data: &[u8],
    report: &mut VerificationReport,
    progress: &mut P,
)
    ensures
        final(report)@ == old(report)@.all_checks(
            all_digest_checks(subject@, role, stored_views(hashes@), coverage, data@),
        ),
        in_step(
            old(progress).log(),
            old(report)@.checks,
            final(progress).log(),
            final(report)@.checks,
        ),
{
    let ghost all = all_digest_checks(subject@, role, stored_views(hashes@), coverage, data@);
    let mut i: usize = 0;
    proof {
        assert(old(report)@.checks + all.take(0) =~= old(report)@.checks);
        in_step_still(progress.log(), report@.checks);
        assert(report@ =~= old(report)@.all_checks(all.take(0)));
    }
    while i < hashes.len()
        invariant
            i <= hashes.len(),
            all == all_digest_checks(subject@, role, stored_views(hashes@), coverage, data@),
            report@ == old(report)@.all_checks(all.take(i as int)),
            in_step(
                old(progress).log(),
                old(report)@.checks,
                progress.log(),
                report@.checks,
            ),
        decreases hashes.len() - i,
    {
        let ghost log1 = progress.log();
        let ghost checks1 = report@.checks;
        push_digest_check(
            subject,
            role,
            &hashes[i],
            coverage,
            data,
            report,
            progress,
        );
        proof {
            in_step_chain(
                old(progress).log(),
                old(report)@.checks,
                log1,
                checks1,
                progress.log(),
                report@.checks,
            );
            assert(all.take(i + 1) =~= all.take(i as int).push(all[i as int]));
            assert(old(report)@.checks + all.take(i + 1) =~= (old(report)@.checks + all.take(
                i as int,
            )).push(all[i as int]));
            assert(report@ =~= old(report)@.all_checks(all.take(i + 1)));
        }
        i = i + 1;
    }
    proof {
        assert(all.take(i as int) =~= all);
    }
}

/// Verify an object of per-chunk digests: the digest over its segments.
pub fn verify_block_hash_segment<V: Volume, P: ProgressObserver>(
    object: &Aff4Object,
    volume: &V,
    report: &mut VerificationReport,
    progress: &mut P,
)
    ensures
        final(report)@ == block_object_report(old(report)@, object@, volume),
        in_step(
            old(progress).log(),
            old(report)@.checks,
            final(progress).log(),
            final(report)@.checks,
        ),
{
    let (stream_name, suffix) = match split_block_object(object.arn.as_str()) {
        Some(pair) => pair,
        None => {
            let reason = text::cat2(
                object.arn.as_str(),
                " does not name a stream and algorithm, so the segments it covers cannot be identified",
            );
            push_all_skipped(
                &object.arn,
                object.role,
                &object.hashes,
                Coverage::Segment,
                reason.as_str(),
                Declined::NotSupported,
                report,
                progress,
            );
            return;
        },
    };
    let locus = Locus::new(report.source_path.as_str());
    let base = match Arn::parse(stream_name.as_str(), &locus) {
        Ok(stream) => stream.member_name(&volume.arn(), NameMapping::Escaped),
        Err(_) => None,
    };
    let base = match base {
        Some(base) => base,
        None => {
            push_all_skipped(
                &object.arn,
                object.role,
                &object.hashes,
                Coverage::Segment,
                "the block-hash segments are stored in another volume",
                Declined::NotSupported,
                report,
                progress,
            );
            return;
        },
    };
    let names = block_hash_segments(volume, base.as_str(), suffix.as_str());
    proof {
        assert(text::texts(names@).len() == names@.len());
    }
    match read_joined(volume, &names) {
        Err((name, e)) => {
            let reason = text::cat2(
                "block-hash segment ",
                text::cat3(name.as_str(), " could not be read: ", e.to_string().as_str()).as_str(),
            );
            report.note(reason.clone());
            push_all_skipped(
                &object.arn,
                object.role,
                &object.hashes,
                Coverage::Segment,
                reason.as_str(),
                classify_read_failure(&e),
                report,
                progress,
            );
        },
        Ok(data) => {
            if names.len() == 0 {
                let reason = text::cat4(
                    "no ",
                    suffix.as_str(),
                    " block-hash segments are stored under ",
                    base.as_str(),
                );
                push_all_skipped(
                    &object.arn,
                    object.role,
                    &object.hashes,
                    Coverage::Segment,
                    reason.as_str(),
                    Declined::NotSupported,
                    report,
                    progress,
                );
            } else {
                push_all_digest_checks(
                    &object.arn,
                    object.role,
                    &object.hashes,
                    Coverage::Segment,
                    data.as_slice(),
                    report,
                    progress,
                );
            }
        },
    }
}

} // verus!
