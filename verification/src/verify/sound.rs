//! What a report says of the evidence: where a check matches, the bytes are those that
//! were recorded, and where they are not, a check says so.

use vstd::prelude::*;
use vstd::utf8::encode_utf8;

use crate::arn::{member_of, NameMapping};
use crate::bytes;
use crate::error::{ErrorView, LocusView};
use crate::hash::{
    ascii_lower, md5_digest, same_but_for_case, sha1_digest, sha256_digest, sha512_digest,
};
use crate::lexicon::Lexicon;
use crate::model::{HashAlgorithm, ObjectRole, StoredHashView};
use crate::rdf::TripleView;
use crate::stream::{stream_content, stream_declared, StreamView};
use crate::text;
use crate::verify::blocks::{block_segments, cut, hex_comes_back, BlockDigestsView};
use crate::verify::container::ObjectView;
use crate::verify::maps::{all_digest_checks, digest_check, joined_segments};
use crate::verify::report::{CheckView, Coverage, Declined, OutcomeView, ReportView};
use crate::verify::streams::{
    blocks_report, blocks_step, index_checks, recorded_under, stream_outcome, wanted_blocks,
    FusedView, VerifyOptions,
};
use crate::volume::Volume;
use crate::write::bevy::{md5_of_each, sha1_of_each};

verus! {

/// Whether a recorded value is the digest of some bytes: what its algorithm makes of
/// them, spelled in hexadecimal, in either case of the letters.
pub open spec fn records(hash: StoredHashView, data: Seq<u8>) -> bool {
    match hash.algorithm {
        HashAlgorithm::Md5 => same_but_for_case(text::hex(md5_digest(data)), hash.hex),
        HashAlgorithm::Sha1 => same_but_for_case(text::hex(sha1_digest(data)), hash.hex),
        HashAlgorithm::Sha256 => same_but_for_case(text::hex(sha256_digest(data)), hash.hex),
        HashAlgorithm::Sha512 => same_but_for_case(text::hex(sha512_digest(data)), hash.hex),
        _ => false,
    }
}

/// Whether a recorded value names an algorithm over bytes that there is an
/// implementation of.
pub open spec fn is_plain(hash: StoredHashView) -> bool {
    hash.algorithm == HashAlgorithm::Md5 || hash.algorithm == HashAlgorithm::Sha1
        || hash.algorithm == HashAlgorithm::Sha256 || hash.algorithm == HashAlgorithm::Sha512
}

/// Whether a check is about a recorded value and says whether it was found to be right.
pub open spec fn answers(c: CheckView, subject: Seq<char>, hash: StoredHashView, right: bool) -> bool {
    &&& c.subject == subject
    &&& c.predicate == hash.predicate
    &&& c.algorithm == hash.algorithm
    &&& c.expected == hash.hex
    &&& right ==> c.outcome == OutcomeView::Match
    &&& !right ==> c.outcome == OutcomeView::Mismatch
}

/// Whether a report, since another, has gained a check that is about a recorded value
/// and says whether it was found to be right.
pub open spec fn is_answered(
    before: ReportView,
    after: ReportView,
    subject: Seq<char>,
    hash: StoredHashView,
    right: bool,
) -> bool {
    exists|k: int|
        before.checks.len() <= k < after.checks.len() && answers(
            #[trigger] after.checks[k],
            subject,
            hash,
            right,
        )
}

/// A digit of a hexadecimal number is no upper-case letter.
proof fn digits_are_lower(n: int)
    requires
        0 <= n < 16,
    ensures
        ascii_lower(text::digit_char(n)) == text::digit_char(n),
{
}

/// Two spellings in hexadecimal differ in case at most exactly where they spell the same
/// bytes.
pub proof fn spellings_tell_apart(a: Seq<u8>, b: Seq<u8>)
    ensures
        same_but_for_case(text::hex(a), text::hex(b)) <==> a == b,
        text::hex(a).len() == 2 * a.len(),
{
    if same_but_for_case(text::hex(a), text::hex(b)) {
        let x = text::hex(a);
        let y = text::hex(b);
        assert forall|i: int| 0 <= i < x.len() implies x[i] == y[i] by {
            digits_are_lower(a[i / 2] as int / 16);
            digits_are_lower(a[i / 2] as int % 16);
            digits_are_lower(b[i / 2] as int / 16);
            digits_are_lower(b[i / 2] as int % 16);
            assert(ascii_lower(x[i]) == ascii_lower(y[i]));
        }
        assert(x =~= y);
        hex_comes_back(a);
        hex_comes_back(b);
        assert(encode_utf8(x) == encode_utf8(y));
    }
}

/// Comparing texts ignores the case of letters and nothing else: a text is the same as
/// itself, and as itself with a letter in the other case; texts without capitals are the
/// same only where they are equal.
pub proof fn only_case_is_ignored(a: Seq<char>, b: Seq<char>, i: int)
    ensures
        same_but_for_case(a, a),
        same_but_for_case(a, b) ==> a.len() == b.len(),
        0 <= i < a.len() && 'a' <= a[i] && a[i] <= 'z' ==> same_but_for_case(
            a,
            a.update(i, ((a[i] as u32) - 32) as char),
        ),
        same_but_for_case(a, b) && (forall|k: int|
            0 <= k < a.len() ==> !('A' <= #[trigger] a[k] && a[k] <= 'Z')) && (forall|k: int|
            0 <= k < b.len() ==> !('A' <= #[trigger] b[k] && b[k] <= 'Z')) ==> a == b,
{
    if same_but_for_case(a, b) && (forall|k: int|
        0 <= k < a.len() ==> !('A' <= #[trigger] a[k] && a[k] <= 'Z')) && (forall|k: int|
        0 <= k < b.len() ==> !('A' <= #[trigger] b[k] && b[k] <= 'Z')) {
        assert forall|k: int| 0 <= k < a.len() implies a[k] == b[k] by {
            assert(ascii_lower(a[k]) == ascii_lower(b[k]));
        }
        assert(a =~= b);
    }
}

/// A digest that was spelled out when it was recorded is found to be right exactly where
/// it is the digest of the bytes.
pub proof fn spelled_digests_decide(hash: StoredHashView, d: Seq<u8>, data: Seq<u8>)
    requires
        hash.hex == text::hex(d),
    ensures
        hash.algorithm == HashAlgorithm::Md5 ==> (records(hash, data) <==> d == md5_digest(data)),
        hash.algorithm == HashAlgorithm::Sha1 ==> (records(hash, data) <==> d == sha1_digest(
            data,
        )),
        hash.algorithm == HashAlgorithm::Sha256 ==> (records(hash, data) <==> d == sha256_digest(
            data,
        )),
        hash.algorithm == HashAlgorithm::Sha512 ==> (records(hash, data) <==> d == sha512_digest(
            data,
        )),
{
    spellings_tell_apart(md5_digest(data), d);
    spellings_tell_apart(sha1_digest(data), d);
    spellings_tell_apart(sha256_digest(data), d);
    spellings_tell_apart(sha512_digest(data), d);
}

/// A check against bytes matches where the recorded value is their digest, does not where
/// it is another, and where the algorithm cannot be computed it concludes nothing.
pub proof fn checks_decide(
    subject: Seq<char>,
    role: ObjectRole,
    hash: StoredHashView,
    coverage: Coverage,
    data: Seq<u8>,
)
    ensures
        ({
            let c = digest_check(subject, role, hash, coverage, data);
            &&& c.role == role
            &&& c.coverage == coverage
            &&& is_plain(hash) ==> answers(c, subject, hash, records(hash, data))
            &&& !is_plain(hash) ==> {
                &&& c.subject == subject
                &&& c.expected == hash.hex
                &&& c.outcome is NotVerifiable
                &&& c.outcome->cause == Declined::NotSupported
            }
        }),
{
}

/// Each of several recorded values is answered for where all are checked against the
/// same bytes.
proof fn each_is_answered(
    before: ReportView,
    after: ReportView,
    subject: Seq<char>,
    role: ObjectRole,
    hashes: Seq<StoredHashView>,
    coverage: Coverage,
    data: Seq<u8>,
    i: int,
)
    requires
        0 <= i < hashes.len(),
        is_plain(hashes[i]),
        (before.checks + all_digest_checks(subject, role, hashes, coverage, data)).is_prefix_of(
            after.checks,
        ),
    ensures
        is_answered(before, after, subject, hashes[i], records(hashes[i], data)),
{
    let added = all_digest_checks(subject, role, hashes, coverage, data);
    let k = before.checks.len() + i;
    checks_decide(subject, role, hashes[i], coverage, data);
    assert((before.checks + added)[k] == added[i]);
    assert(after.checks[k] == added[i]);
    assert(answers(after.checks[k], subject, hashes[i], records(hashes[i], data)));
}

/// Byte strings of one length, one after the other, are as long as all of them.
proof fn joined_length(a: Seq<Seq<u8>>, w: nat)
    requires
        forall|i: int| 0 <= i < a.len() ==> (#[trigger] a[i]).len() == w,
    ensures
        bytes::flattened(a).len() == a.len() * w,
    decreases a.len(),
{
    if a.len() > 0 {
        joined_length(a.drop_last(), w);
        assert((a.len() - 1) * w + w == a.len() * w) by (nonlinear_arith);
    }
}

/// Lists of byte strings of one length, one after the other, are the same exactly where
/// the lists are.
proof fn joined_alike(a: Seq<Seq<u8>>, b: Seq<Seq<u8>>, w: nat)
    requires
        w > 0,
        forall|i: int| 0 <= i < a.len() ==> (#[trigger] a[i]).len() == w,
        forall|i: int| 0 <= i < b.len() ==> (#[trigger] b[i]).len() == w,
    ensures
        bytes::flattened(a) == bytes::flattened(b) <==> a == b,
    decreases a.len(),
{
    joined_length(a, w);
    joined_length(b, w);
    let x = bytes::flattened(a);
    let y = bytes::flattened(b);
    if x == y {
        assert(a.len() == b.len()) by (nonlinear_arith)
            requires
                a.len() * w == b.len() * w,
                w > 0,
        ;
        if a.len() == 0 {
            assert(a =~= b);
        } else {
            let p = bytes::flattened(a.drop_last());
            let q = bytes::flattened(b.drop_last());
            joined_length(a.drop_last(), w);
            joined_length(b.drop_last(), w);
            assert(p =~= x.take(p.len() as int));
            assert(q =~= y.take(q.len() as int));
            assert(a.last() =~= x.skip(p.len() as int));
            assert(b.last() =~= y.skip(q.len() as int));
            joined_alike(a.drop_last(), b.drop_last(), w);
            assert(a =~= a.drop_last().push(a.last()));
            assert(b =~= b.drop_last().push(b.last()));
        }
    }
}

/// How many chunks of `n` bytes some bytes take, the last perhaps shorter.
pub open spec fn chunks_held(data: Seq<u8>, n: nat) -> nat {
    ((data.len() + n - 1) / n as int) as nat
}

/// A chunk of `n` bytes by its number, the last perhaps shorter.
pub open spec fn chunk_of(data: Seq<u8>, n: nat, i: int) -> Seq<u8> {
    data.subrange(
        i * n,
        if (i + 1) * n <= data.len() {
            (i + 1) * n
        } else {
            data.len() as int
        },
    )
}

/// Cutting bytes gives their chunks.
pub proof fn cut_is_chunks(data: Seq<u8>, n: nat)
    requires
        n > 0,
    ensures
        cut(data, n) == Seq::new(chunks_held(data, n), |i: int| chunk_of(data, n, i)),
{
    let len = data.len() as int;
    let d = n as int;
    let q = len / d;
    let r = len % d;
    vstd::arithmetic::div_mod::lemma_fundamental_div_mod(len, d);
    assert(d * q == q * d) by (nonlinear_arith);
    assert(0 <= r < d) by (nonlinear_arith)
        requires
            r == len % d,
            d > 0,
    ;
    if r == 0 {
        assert((len + d - 1) / d == q) by (nonlinear_arith)
            requires
                len == q * d,
                d > 0,
        ;
    } else {
        assert((len + d - 1) / d == q + 1) by (nonlinear_arith)
            requires
                len == q * d + r,
                0 < r < d,
        ;
    }
    assert(q >= 0) by (nonlinear_arith)
        requires
            q == len / d,
            len >= 0,
            d > 0,
    ;
    let all = Seq::new(chunks_held(data, n), |i: int| chunk_of(data, n, i));
    assert((data.len() / n) as int == q);
    assert(all.len() == cut(data, n).len());
    assert forall|i: int| 0 <= i < all.len() implies all[i] == cut(data, n)[i] by {
        assert((i + 1) * d == i * d + d) by (nonlinear_arith);
        if i < q {
            assert((i + 1) * d <= q * d) by (nonlinear_arith)
                requires
                    i < q,
                    d > 0,
            ;
            assert(i * d >= 0) by (nonlinear_arith)
                requires
                    i >= 0,
                    d > 0,
            ;
        } else {
            assert(i == q);
            assert(all[i] =~= data.skip(q * d));
        }
    }
    assert(all =~= cut(data, n));
}

/// Whether recorded digests are those of the chunks of some bytes, one for each chunk and
/// in their order.
pub open spec fn digests_are(
    recorded: Seq<Seq<u8>>,
    data: Seq<u8>,
    n: nat,
    digest: spec_fn(Seq<u8>) -> Seq<u8>,
) -> bool {
    &&& recorded.len() == chunks_held(data, n)
    &&& forall|i: int| 0 <= i < recorded.len() ==> #[trigger] recorded[i] == digest(chunk_of(data, n, i))
}

/// The digests of chunks one after the other, as a list.
proof fn digests_listed(chunks: Seq<Seq<u8>>)
    ensures
        md5_of_each(chunks) == bytes::flattened(
            Seq::new(chunks.len(), |i: int| md5_digest(chunks[i])),
        ),
        sha1_of_each(chunks) == bytes::flattened(
            Seq::new(chunks.len(), |i: int| sha1_digest(chunks[i])),
        ),
    decreases chunks.len(),
{
    if chunks.len() > 0 {
        let front = chunks.drop_last();
        digests_listed(front);
        let a = Seq::new(chunks.len(), |i: int| md5_digest(chunks[i]));
        let b = Seq::new(chunks.len(), |i: int| sha1_digest(chunks[i]));
        assert(a.drop_last() =~= Seq::new(front.len(), |i: int| md5_digest(front[i])));
        assert(b.drop_last() =~= Seq::new(front.len(), |i: int| sha1_digest(front[i])));
    }
}

/// Segments that can all be read give their bytes one after the other.
pub proof fn segments_are_joined<V: Volume>(
    volume: &V,
    names: Seq<Seq<char>>,
    parts: Seq<Seq<u8>>,
    n: nat,
)
    requires
        n <= names.len(),
        parts.len() == names.len(),
        forall|i: int|
            0 <= i < names.len() ==> volume.outcome(#[trigger] names[i]) == Ok::<
                Seq<u8>,
                ErrorView,
            >(parts[i]),
    ensures
        joined_segments(volume, names, n) == Ok::<Seq<u8>, (Seq<char>, ErrorView)>(
            bytes::flattened(parts.take(n as int)),
        ),
    decreases n,
{
    if n > 0 {
        segments_are_joined(volume, names, parts, (n - 1) as nat);
        assert(volume.outcome(names[n - 1]) == Ok::<Seq<u8>, ErrorView>(parts[n - 1]));
        assert(parts.take(n as int).drop_last() =~= parts.take(n - 1));
    } else {
        assert(parts.take(0) =~= Seq::<Seq<u8>>::empty());
    }
}

/// Whether segments hold some byte strings, one after the other, however they are spread
/// over the segments.
pub open spec fn hold_joined<V: Volume>(
    volume: &V,
    names: Seq<Seq<char>>,
    parts: Seq<Seq<u8>>,
    list: Seq<Seq<u8>>,
) -> bool {
    &&& parts.len() == names.len()
    &&& forall|i: int|
        0 <= i < names.len() ==> volume.outcome(#[trigger] names[i]) == Ok::<Seq<u8>, ErrorView>(
            parts[i],
        )
    &&& bytes::flattened(parts) == bytes::flattened(list)
}

/// Whether a report, since another, has gained a check of a stream's chunk digests under
/// an algorithm that says whether they were found to be right.
pub open spec fn blocks_answered(
    before: ReportView,
    after: ReportView,
    stream: Seq<char>,
    predicate: Seq<char>,
    algorithm: HashAlgorithm,
    covered: nat,
    right: bool,
) -> bool {
    exists|k: int|
        before.checks.len() <= k < after.checks.len() && blocks_answer(
            #[trigger] after.checks[k],
            stream,
            predicate,
            algorithm,
            covered,
            right,
        )
}

/// Whether a check is about a stream's chunk digests under an algorithm and says whether
/// they were found to be right.
pub open spec fn blocks_answer(
    c: CheckView,
    stream: Seq<char>,
    predicate: Seq<char>,
    algorithm: HashAlgorithm,
    covered: nat,
    right: bool,
) -> bool {
    &&& c.subject == stream
    &&& c.role == ObjectRole::BlockHashes
    &&& c.predicate == predicate
    &&& c.algorithm == algorithm
    &&& c.coverage == Coverage::Block
    &&& c.expected == text::decimal(covered) + " chunk digests"@
    &&& c.digests_covered == Some(covered as usize)
    &&& right ==> c.outcome == OutcomeView::Match
    &&& !right ==> c.outcome == OutcomeView::Mismatch
}

/// Comparing lists of digests adds a check that says whether they are the same list.
proof fn lists_are_compared<V: Volume>(
    report: ReportView,
    s: StreamView,
    base: Seq<char>,
    algorithm: HashAlgorithm,
    suffix: Seq<char>,
    w: nat,
    computed: Seq<Seq<u8>>,
    recorded: Seq<Seq<u8>>,
    parts: Seq<Seq<u8>>,
    volume: &V,
)
    requires
        w > 0,
        block_segments(volume, base, suffix).len() > 0,
        hold_joined(volume, block_segments(volume, base, suffix), parts, recorded),
        forall|i: int| 0 <= i < recorded.len() ==> (#[trigger] recorded[i]).len() == w,
        forall|i: int| 0 <= i < computed.len() ==> (#[trigger] computed[i]).len() == w,
    ensures
        ({
            let after = blocks_step(
                report,
                s,
                base,
                algorithm,
                suffix,
                w,
                Some(bytes::flattened(computed)),
                volume,
            );
            &&& after.1
            &&& report.checks.is_prefix_of(after.0.checks)
            &&& after.0.checks.len() == report.checks.len() + 1
            &&& blocks_answer(
                after.0.checks.last(),
                s.arn,
                "blockHash."@ + suffix,
                algorithm,
                recorded.len(),
                recorded == computed,
            )
        }),
{
    let names = block_segments(volume, base, suffix);
    segments_are_joined(volume, names, parts, names.len());
    assert(parts.take(names.len() as int) =~= parts);
    joined_alike(recorded, computed, w);
    joined_length(recorded, w);
    assert((recorded.len() * w) / w == recorded.len()) by (nonlinear_arith)
        requires
            w > 0,
    ;
}

/// Verifying a stream only adds checks.
pub proof fn streams_only_add<V: Volume>(
    report: ReportView,
    fused: Option<FusedView>,
    object: ObjectView,
    volume: &V,
    graph: Seq<TripleView>,
    lexicon: Lexicon,
    locus: LocusView,
    options: VerifyOptions,
)
    ensures
        report.checks.is_prefix_of(
            stream_outcome(
                report,
                fused,
                object,
                volume,
                graph,
                lexicon,
                locus,
                options,
            ).0.checks,
        ),
{
}

/// A recorded digest under a property is among those of the property.
proof fn recorded_is_selected(hashes: Seq<StoredHashView>, predicate: Seq<char>, i: int)
    requires
        0 <= i < hashes.len(),
        hashes[i].predicate == predicate,
    ensures
        exists|k: int|
            0 <= k < recorded_under(hashes, predicate).len() && #[trigger] recorded_under(
                hashes,
                predicate,
            )[k] == hashes[i],
    decreases hashes.len(),
{
    let shorter = recorded_under(hashes.drop_last(), predicate);
    let all = recorded_under(hashes, predicate);
    if i == hashes.len() - 1 {
        assert(all[all.len() - 1] == hashes[i]);
    } else {
        recorded_is_selected(hashes.drop_last(), predicate, i);
        let k = choose|k: int| 0 <= k < shorter.len() && #[trigger] shorter[k] == hashes[i];
        assert(all[k] == hashes[i]);
    }
}

/// Every digest that a stream records of its bytes is answered for: the report gains a
/// check of it that matches where the value is the digest of the stream's bytes, and one
/// that does not where it is another.
pub proof fn stream_digests_are_answered<V: Volume>(
    report: ReportView,
    fused: Option<FusedView>,
    object: ObjectView,
    volume: &V,
    graph: Seq<TripleView>,
    lexicon: Lexicon,
    locus: LocusView,
    options: VerifyOptions,
    s: StreamView,
    data: Seq<u8>,
    i: int,
)
    requires
        stream_declared(object.arn, graph, lexicon, locus) == Ok::<StreamView, ErrorView>(s),
        stream_content(s, volume, locus) == Ok::<Seq<u8>, ErrorView>(data),
        0 <= i < object.hashes.len(),
        object.hashes[i].predicate == "hash"@,
        is_plain(object.hashes[i]),
    ensures
        is_answered(
            report,
            stream_outcome(
                report,
                fused,
                object,
                volume,
                graph,
                lexicon,
                locus,
                options,
            ).0,
            object.arn,
            object.hashes[i],
            records(object.hashes[i], data),
        ),
{
    let recorded = recorded_under(object.hashes, "hash"@);
    recorded_is_selected(object.hashes, "hash"@, i);
    let k = choose|k: int| 0 <= k < recorded.len() && #[trigger] recorded[k] == object.hashes[i];
    let indexed = report.all_checks(index_checks(object, object.hashes, s, volume));
    let after = stream_outcome(
        report,
        fused,
        object,
        volume,
        graph,
        lexicon,
        locus,
        options,
    ).0;
    each_is_answered(
        indexed,
        after,
        object.arn,
        object.role,
        recorded,
        Coverage::StoredStream,
        data,
        k,
    );
    let hash = object.hashes[i];
    let right = records(hash, data);
    let m = choose|m: int|
        indexed.checks.len() <= m < after.checks.len() && answers(
            #[trigger] after.checks[m],
            object.arn,
            hash,
            right,
        );
    assert(answers(after.checks[m], object.arn, hash, right));
}

/// The chunk digests of a stream that are wanted, and what they come to over its bytes.
proof fn blocks_of_stream<V: Volume>(
    s: StreamView,
    volume: &V,
    options: VerifyOptions,
    data: Seq<u8>,
    base: Seq<char>,
)
    requires
        options.block_hashes,
        member_of(s.arn, volume.name(), NameMapping::Escaped) == Some(base),
        s.chunk_size > 0,
    ensures
        ({
            let n = s.chunk_size as nat;
            let md5 = block_segments(volume, base, "md5"@).len() > 0;
            let sha1 = block_segments(volume, base, "sha1"@).len() > 0;
            let chunks = Seq::new(chunks_held(data, n), |i: int| chunk_of(data, n, i));
            md5 || sha1 ==> wanted_blocks(s.arn, volume, options) is Some && wanted_blocks(
                s.arn,
                volume,
                options,
            )->Some_0.with(cut(data, n)) == (BlockDigestsView {
                md5: if md5 {
                    Some(
                        bytes::flattened(
                            Seq::new(chunks.len(), |i: int| md5_digest(chunks[i])),
                        ),
                    )
                } else {
                    None
                },
                sha1: if sha1 {
                    Some(
                        bytes::flattened(
                            Seq::new(chunks.len(), |i: int| sha1_digest(chunks[i])),
                        ),
                    )
                } else {
                    None
                },
            })
        }),
{
    let n = s.chunk_size as nat;
    cut_is_chunks(data, n);
    let chunks = cut(data, n);
    digests_listed(chunks);
    assert(Seq::<u8>::empty() + md5_of_each(chunks) =~= md5_of_each(chunks));
    assert(Seq::<u8>::empty() + sha1_of_each(chunks) =~= sha1_of_each(chunks));
}

/// The digests that a stream records of its chunks are answered for: where the recorded
/// SHA-1 digests are those of the chunks of the stream's bytes, one for each and in their
/// order, the report gains a check that matches; where one of them differs, is missing or
/// is too many, it gains one that does not.
pub proof fn sha1_of_chunks_is_answered<V: Volume>(
    report: ReportView,
    fused: Option<FusedView>,
    object: ObjectView,
    volume: &V,
    graph: Seq<TripleView>,
    lexicon: Lexicon,
    locus: LocusView,
    options: VerifyOptions,
    s: StreamView,
    data: Seq<u8>,
    base: Seq<char>,
    recorded: Seq<Seq<u8>>,
    parts: Seq<Seq<u8>>,
    earlier: Seq<Seq<u8>>,
)
    requires
        options.block_hashes,
        stream_declared(object.arn, graph, lexicon, locus) == Ok::<StreamView, ErrorView>(s),
        stream_content(s, volume, locus) == Ok::<Seq<u8>, ErrorView>(data),
        member_of(object.arn, volume.name(), NameMapping::Escaped) == Some(base),
        block_segments(volume, base, "sha1"@).len() > 0,
        hold_joined(volume, block_segments(volume, base, "sha1"@), parts, recorded),
        hold_joined(volume, block_segments(volume, base, "md5"@), earlier, earlier),
        forall|i: int| 0 <= i < recorded.len() ==> (#[trigger] recorded[i]).len() == 20,
        forall|x: Seq<u8>| (#[trigger] sha1_digest(x)).len() == 20,
    ensures
        blocks_answered(
            report,
            stream_outcome(
                report,
                fused,
                object,
                volume,
                graph,
                lexicon,
                locus,
                options,
            ).0,
            object.arn,
            "blockHash.sha1"@,
            HashAlgorithm::Sha1,
            recorded.len(),
            digests_are(recorded, data, s.chunk_size as nat, |x: Seq<u8>| sha1_digest(x)),
        ),
{
    let n = s.chunk_size as nat;
    let names = block_segments(volume, base, "md5"@);
    let chunks = Seq::new(chunks_held(data, n), |i: int| chunk_of(data, n, i));
    let computed = Seq::new(chunks.len(), |i: int| sha1_digest(chunks[i]));
    let right = digests_are(recorded, data, n, |x: Seq<u8>| sha1_digest(x));
    blocks_of_stream(s, volume, options, data, base);
    let blocks = wanted_blocks(object.arn, volume, options)->Some_0.with(cut(data, n));
    let compared = report.all_checks(index_checks(object, object.hashes, s, volume)).all_checks(
        all_digest_checks(
            object.arn,
            object.role,
            recorded_under(object.hashes, "hash"@),
            Coverage::StoredStream,
            data,
        ),
    );
    segments_are_joined(volume, names, earlier, names.len());
    let between = blocks_step(
        compared,
        s,
        base,
        HashAlgorithm::Md5,
        "md5"@,
        16,
        blocks.md5,
        volume,
    ).0;
    lists_are_compared(
        between,
        s,
        base,
        HashAlgorithm::Sha1,
        "sha1"@,
        20,
        computed,
        recorded,
        parts,
        volume,
    );
    assert((recorded == computed) == right) by {
        if right {
            assert(recorded =~= computed);
        }
    }
    reveal_strlit("blockHash.");
    reveal_strlit("sha1");
    reveal_strlit("blockHash.sha1");
    assert("blockHash."@ + "sha1"@ =~= "blockHash.sha1"@);
    let after = stream_outcome(
        report,
        fused,
        object,
        volume,
        graph,
        lexicon,
        locus,
        options,
    ).0;
    assert(after == blocks_report(compared, s, blocks, volume));
    let k = after.checks.len() - 1;
    assert(blocks_answer(
        after.checks[k],
        object.arn,
        "blockHash.sha1"@,
        HashAlgorithm::Sha1,
        recorded.len(),
        right,
    ));
}

/// The MD5 digests that a stream records of its chunks are answered for in the same way.
pub proof fn md5_of_chunks_is_answered<V: Volume>(
    report: ReportView,
    fused: Option<FusedView>,
    object: ObjectView,
    volume: &V,
    graph: Seq<TripleView>,
    lexicon: Lexicon,
    locus: LocusView,
    options: VerifyOptions,
    s: StreamView,
    data: Seq<u8>,
    base: Seq<char>,
    recorded: Seq<Seq<u8>>,
    parts: Seq<Seq<u8>>,
)
    requires
        options.block_hashes,
        stream_declared(object.arn, graph, lexicon, locus) == Ok::<StreamView, ErrorView>(s),
        stream_content(s, volume, locus) == Ok::<Seq<u8>, ErrorView>(data),
        member_of(object.arn, volume.name(), NameMapping::Escaped) == Some(base),
        block_segments(volume, base, "md5"@).len() > 0,
        hold_joined(volume, block_segments(volume, base, "md5"@), parts, recorded),
        forall|i: int| 0 <= i < recorded.len() ==> (#[trigger] recorded[i]).len() == 16,
        forall|x: Seq<u8>| (#[trigger] md5_digest(x)).len() == 16,
    ensures
        blocks_answered(
            report,
            stream_outcome(
                report,
                fused,
                object,
                volume,
                graph,
                lexicon,
                locus,
                options,
            ).0,
            object.arn,
            "blockHash.md5"@,
            HashAlgorithm::Md5,
            recorded.len(),
            digests_are(recorded, data, s.chunk_size as nat, |x: Seq<u8>| md5_digest(x)),
        ),
{
    let n = s.chunk_size as nat;
    let chunks = Seq::new(chunks_held(data, n), |i: int| chunk_of(data, n, i));
    let computed = Seq::new(chunks.len(), |i: int| md5_digest(chunks[i]));
    let right = digests_are(recorded, data, n, |x: Seq<u8>| md5_digest(x));
    blocks_of_stream(s, volume, options, data, base);
    let blocks = wanted_blocks(object.arn, volume, options)->Some_0.with(cut(data, n));
    let compared = report.all_checks(index_checks(object, object.hashes, s, volume)).all_checks(
        all_digest_checks(
            object.arn,
            object.role,
            recorded_under(object.hashes, "hash"@),
            Coverage::StoredStream,
            data,
        ),
    );
    lists_are_compared(
        compared,
        s,
        base,
        HashAlgorithm::Md5,
        "md5"@,
        16,
        computed,
        recorded,
        parts,
        volume,
    );
    assert((recorded == computed) == right) by {
        if right {
            assert(recorded =~= computed);
        }
    }
    reveal_strlit("blockHash.");
    reveal_strlit("md5");
    reveal_strlit("blockHash.md5");
    assert("blockHash."@ + "md5"@ =~= "blockHash.md5"@);
    let after = stream_outcome(
        report,
        fused,
        object,
        volume,
        graph,
        lexicon,
        locus,
        options,
    ).0;
    assert(after == blocks_report(compared, s, blocks, volume));
    let k = compared.checks.len() as int;
    assert(blocks_answer(
        after.checks[k],
        object.arn,
        "blockHash.md5"@,
        HashAlgorithm::Md5,
        recorded.len(),
        right,
    ));
}

/// Where chunk digests are not asked for, no check is about them.
pub proof fn chunks_are_checked_on_request<V: Volume>(
    report: ReportView,
    fused: Option<FusedView>,
    object: ObjectView,
    volume: &V,
    graph: Seq<TripleView>,
    lexicon: Lexicon,
    locus: LocusView,
    options: VerifyOptions,
    k: int,
)
    requires
        !options.block_hashes,
        ({
            let after = stream_outcome(
                report,
                fused,
                object,
                volume,
                graph,
                lexicon,
                locus,
                options,
            ).0;
            report.checks.len() <= k < after.checks.len()
        }),
    ensures
        stream_outcome(
            report,
            fused,
            object,
            volume,
            graph,
            lexicon,
            locus,
            options,
        ).0.checks[k].coverage != Coverage::Block,
{
    match stream_declared(object.arn, graph, lexicon, locus) {
        Err(_) => {},
        Ok(s) => {
            index_checks_cover_no_chunk(object, object.hashes, s, volume);
        },
    }
}

/// No digest that a stream records besides that of its bytes is about its chunks.
proof fn index_checks_cover_no_chunk<V: Volume>(
    object: ObjectView,
    hashes: Seq<StoredHashView>,
    s: StreamView,
    volume: &V,
)
    ensures
        forall|i: int|
            0 <= i < index_checks(object, hashes, s, volume).len() ==> (#[trigger] index_checks(
                object,
                hashes,
                s,
                volume,
            )[i]).coverage != Coverage::Block,
    decreases hashes.len(),
{
    if hashes.len() > 0 {
        index_checks_cover_no_chunk(object, hashes.drop_last(), s, volume);
    }
}

} // verus!
