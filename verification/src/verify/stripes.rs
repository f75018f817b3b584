//! The root digest of an image that is spread over several volumes.
//!
//! The root of a striped image is a SHA-512 over the stripes' own `blockMapHash`
//! values, raw and recomputed. The order they combine in is not recorded, so it is
//! inferred and named.

use vstd::prelude::*;

use crate::arn::{member_of, Arn, NameMapping};
use crate::bytes;
use crate::error::error_text;
use crate::hash::{eq_ignore_case, same_but_for_case, sha512_digest, sha512_raw};
use crate::model::{StoredHash, StoredHashView};
use crate::order;
use crate::rdf::object_of;
use crate::text;
use crate::verify::blocks::{leaf, leaf_of, to_hex};
use crate::verify::container::{Aff4Object, ObjectView, Part};
use crate::verify::maps::{
    arn_texts, block_map_hash_input, block_map_input, find_local_streams, local_streams,
    map_segments, read_map_segments,
};
use crate::verify::report::{
    check_of, classify_read_failure, declined_check, failure_cause, in_step, in_step_still, push_check, skipped_check, verdict, CheckView, Coverage, Declined,
    HashCheck, Outcome, OutcomeView, ProgressObserver, ReportView, VerificationReport,
};
use crate::volume::Volume;

verus! {

/// The property that says a volume declares an image.
pub const DATA_STREAM_IRI: &'static str = "http://aff4.org/Schema#dataStream";

/// One stripe's recomputed `blockMapHash`, with what it can be ordered by.
#[derive(Debug)]
pub struct Stripe {
    /// The stripe's file.
    pub path: String,
    /// Its map.
    pub map: Arn,
    /// Its first stream.
    pub stream: Arn,
    /// The recomputed digest, raw.
    pub digest: Vec<u8>,
}

/// What a [`Stripe`] says, as plain values.
#[verifier::ext_equal]
pub struct StripeView {
    /// The stripe's file.
    pub path: Seq<char>,
    /// Its map.
    pub map: Seq<char>,
    /// Its first stream.
    pub stream: Seq<char>,
    /// The recomputed digest, raw.
    pub digest: Seq<u8>,
}

impl View for Stripe {
    type V = StripeView;

    open spec fn view(&self) -> StripeView {
        StripeView {
            path: self.path@,
            map: self.map@,
            stream: self.stream@,
            digest: self.digest@,
        }
    }
}

/// What a list of stripes says.
pub open spec fn stripe_views(list: Seq<Stripe>) -> Seq<StripeView> {
    Seq::new(list.len(), |i: int| list[i]@)
}

/// What stripes can be ordered by.
#[derive(Debug, Clone, Copy, PartialEq, Eq, Structural)]
pub enum StripeOrderKey {
    /// The name of the file.
    Filename,
    /// The name of the map.
    MapArn,
    /// The name of the stream.
    StreamArn,
}

/// How an order is called in a report.
pub open spec fn order_text(key: StripeOrderKey) -> Seq<char> {
    match key {
        StripeOrderKey::Filename => "filename order"@,
        StripeOrderKey::MapArn => "map ARN order"@,
        StripeOrderKey::StreamArn => "stream ARN order"@,
    }
}

impl StripeOrderKey {
    /// How the order is called in a report.
    pub fn describe(self) -> (r: &'static str)
        ensures
            r@ == order_text(self),
    {
        match self {
            StripeOrderKey::Filename => "filename order",
            StripeOrderKey::MapArn => "map ARN order",
            StripeOrderKey::StreamArn => "stream ARN order",
        }
    }
}

/// What a stripe is ordered by under a key.
pub open spec fn stripe_key(s: StripeView, by: StripeOrderKey) -> Seq<char> {
    match by {
        StripeOrderKey::Filename => leaf(s.path),
        StripeOrderKey::MapArn => s.map,
        StripeOrderKey::StreamArn => s.stream,
    }
}

impl Stripe {
    /// What the stripe is ordered by under a key.
    pub fn key(&self, by: StripeOrderKey) -> (r: String)
        ensures
            r@ == stripe_key(self@, by),
    {
        match by {
            StripeOrderKey::Filename => leaf_of(self.path.as_str()),
            StripeOrderKey::MapArn => text::owned(self.map.as_str()),
            StripeOrderKey::StreamArn => text::owned(self.stream.as_str()),
        }
    }
}

/// What each of some stripes is ordered by under a key.
pub open spec fn stripe_keys(stripes: Seq<StripeView>, by: StripeOrderKey) -> Seq<Seq<char>> {
    Seq::new(stripes.len(), |i: int| stripe_key(stripes[i], by))
}

/// The stripes' digests in an order.
pub open spec fn digests_in_order(stripes: Seq<StripeView>, order: Seq<int>) -> Seq<Seq<u8>> {
    Seq::new(order.len(), |i: int| stripes[order[i]].digest)
}

/// The names of the stripes' files in an order.
pub open spec fn files_in_order(stripes: Seq<StripeView>, order: Seq<int>) -> Seq<Seq<char>> {
    Seq::new(order.len(), |i: int| leaf(stripes[order[i]].path))
}

/// The root digest of some stripes ordered by a key, in hexadecimal.
pub open spec fn root_of(stripes: Seq<StripeView>, by: StripeOrderKey) -> Seq<char> {
    text::hex(
        sha512_digest(
            bytes::flattened(
                digests_in_order(stripes, order::order_of(stripe_keys(stripes, by))),
            ),
        ),
    )
}

/// The first key whose order reproduces a digest, if one does.
pub open spec fn matching_order(stripes: Seq<StripeView>, expected: Seq<char>) -> Option<
    StripeOrderKey,
> {
    if same_but_for_case(root_of(stripes, StripeOrderKey::Filename), expected) {
        Some(StripeOrderKey::Filename)
    } else if same_but_for_case(root_of(stripes, StripeOrderKey::MapArn), expected) {
        Some(StripeOrderKey::MapArn)
    } else if same_but_for_case(root_of(stripes, StripeOrderKey::StreamArn), expected) {
        Some(StripeOrderKey::StreamArn)
    } else {
        None
    }
}

/// The stripes' order under a key, and the root digest it gives.
fn root_under(stripes: &Vec<Stripe>, by: StripeOrderKey) -> (r: (Vec<usize>, String))
    ensures
        order::positions(r.0@) == order::order_of(stripe_keys(stripe_views(stripes@), by)),
        forall|i: int| 0 <= i < r.0@.len() ==> (#[trigger] r.0@[i]) < stripes@.len(),
        r.1@ == root_of(stripe_views(stripes@), by),
{
    let ghost all = stripe_views(stripes@);
    let mut keys: Vec<String> = Vec::new();
    let mut i: usize = 0;
    while i < stripes.len()
        invariant
            i <= stripes.len(),
            all == stripe_views(stripes@),
            text::texts(keys@) == stripe_keys(all, by).take(i as int),
        decreases stripes.len() - i,
    {
        let ghost before = keys@;
        let key = stripes[i].key(by);
        keys.push(key);
        proof {
            assert(text::texts(keys@) =~= text::texts(before).push(key@));
            assert(stripe_keys(all, by).take(i + 1) =~= stripe_keys(all, by).take(i as int).push(
                key@,
            ));
        }
        i = i + 1;
    }
    proof {
        assert(stripe_keys(all, by).take(i as int) =~= stripe_keys(all, by));
        assert(text::texts(keys@).len() == keys@.len());
    }
    let sorted = order::sort_order(&keys);
    let ghost at = order::positions(sorted@);
    let mut input: Vec<u8> = Vec::new();
    let mut j: usize = 0;
    while j < sorted.len()
        invariant
            j <= sorted.len(),
            all == stripe_views(stripes@),
            at == order::positions(sorted@),
            forall|k: int| 0 <= k < sorted@.len() ==> (#[trigger] sorted@[k]) < stripes@.len(),
            input@ == bytes::flattened(digests_in_order(all, at).take(j as int)),
        decreases sorted.len() - j,
    {
        let stripe = &stripes[sorted[j]];
        bytes::append(&mut input, stripe.digest.as_slice());
        proof {
            let digests = digests_in_order(all, at);
            assert(at[j as int] == sorted@[j as int] as int);
            assert(digests[j as int] == stripe@.digest);
            assert(digests.take(j + 1) =~= digests.take(j as int).push(stripe@.digest));
            bytes::flattened_push(digests.take(j as int), stripe@.digest);
        }
        j = j + 1;
    }
    proof {
        assert(digests_in_order(all, at).take(j as int) =~= digests_in_order(all, at));
    }
    let root = to_hex(sha512_raw(input.as_slice()).as_slice());
    (sorted, root)
}

/// Find the order that reproduces a digest, trying each key in turn. The keys
/// tried before it, or all of them, come along.
pub fn search_stripe_order(stripes: &Vec<Stripe>, expected: &str) -> (r: (
    Option<(StripeOrderKey, Vec<usize>, String)>,
    Vec<String>,
))
    ensures
        (match r.0 {
            Some((key, sorted, root)) => {
                &&& matching_order(stripe_views(stripes@), expected@) == Some(key)
                &&& order::positions(sorted@) == order::order_of(
                    stripe_keys(stripe_views(stripes@), key),
                )
                &&& forall|i: int| 0 <= i < sorted@.len() ==> (#[trigger] sorted@[i]) < stripes@.len()
                &&& root@ == root_of(stripe_views(stripes@), key)
            },
            None => matching_order(stripe_views(stripes@), expected@) is None,
        }),
        text::texts(r.1@) == orders_tried(stripe_views(stripes@), expected@),
{
    let mut tried: Vec<String> = Vec::new();
    let (by_file, file_root) = root_under(stripes, StripeOrderKey::Filename);
    if eq_ignore_case(file_root.as_str(), expected) {
        proof {
            assert(text::texts(tried@) =~= Seq::<Seq<char>>::empty());
        }
        return (Some((StripeOrderKey::Filename, by_file, file_root)), tried);
    }
    tried.push(text::owned(StripeOrderKey::Filename.describe()));
    let (by_map, map_root) = root_under(stripes, StripeOrderKey::MapArn);
    if eq_ignore_case(map_root.as_str(), expected) {
        proof {
            assert(text::texts(tried@) =~= seq![order_text(StripeOrderKey::Filename)]);
        }
        return (Some((StripeOrderKey::MapArn, by_map, map_root)), tried);
    }
    tried.push(text::owned(StripeOrderKey::MapArn.describe()));
    let (by_stream, stream_root) = root_under(stripes, StripeOrderKey::StreamArn);
    if eq_ignore_case(stream_root.as_str(), expected) {
        proof {
            assert(text::texts(tried@) =~= seq![
                order_text(StripeOrderKey::Filename),
                order_text(StripeOrderKey::MapArn),
            ]);
        }
        return (Some((StripeOrderKey::StreamArn, by_stream, stream_root)), tried);
    }
    tried.push(text::owned(StripeOrderKey::StreamArn.describe()));
    proof {
        assert(text::texts(tried@) =~= seq![
            order_text(StripeOrderKey::Filename),
            order_text(StripeOrderKey::MapArn),
            order_text(StripeOrderKey::StreamArn),
        ]);
    }
    (None, tried)
}

/// The orders that are tried without reproducing a digest.
pub open spec fn orders_tried(stripes: Seq<StripeView>, expected: Seq<char>) -> Seq<Seq<char>> {
    let file = order_text(StripeOrderKey::Filename);
    let map = order_text(StripeOrderKey::MapArn);
    let stream = order_text(StripeOrderKey::StreamArn);
    match matching_order(stripes, expected) {
        Some(StripeOrderKey::Filename) => Seq::empty(),
        Some(StripeOrderKey::MapArn) => seq![file],
        Some(StripeOrderKey::StreamArn) => seq![file, map],
        None => seq![file, map, stream],
    }
}

/// A volume's stripe, or why its digest cannot be recomputed and whether that is a
/// finding about the evidence.
pub open spec fn stripe_of<V: Volume>(part: Part<V>) -> Result<StripeView, (Seq<char>, Declined)> {
    let name = part.volume.name();
    let base = match part.local_map {
        None => None,
        Some(map) => member_of(map@, name, NameMapping::Escaped),
    };
    match base {
        None => Err(
            ("volume "@ + name + " declares no map of its own"@, Declined::NotSupported),
        ),
        Some(base) => match map_segments(base, &part.volume) {
            Err(e) => Err(
                (
                    "volume "@ + name + "'s map segments could not be read: "@ + error_text(e),
                    failure_cause(e.kind),
                ),
            ),
            Ok(segments) => {
                let local = local_streams(segments.idx, &part.volume);
                match block_map_input(&part.volume, local, segments) {
                    Err(reason) => Err(
                        (
                            "volume "@ + name + ": block-hash segment "@ + reason,
                            Declined::Unreadable,
                        ),
                    ),
                    Ok(input) => Ok(
                        StripeView {
                            path: part.path@,
                            map: part.local_map->Some_0@,
                            stream: if local.len() > 0 {
                                local[0]
                            } else {
                                part.local_map->Some_0@
                            },
                            digest: sha512_digest(input),
                        },
                    ),
                }
            },
        },
    }
}

/// The stripes of the first `n` of some volumes, or why the first that fails
/// does.
pub open spec fn stripes_of<V: Volume>(parts: Seq<Part<V>>, members: Seq<int>, n: nat) -> Result<
    Seq<StripeView>,
    (Seq<char>, Declined),
>
    decreases n,
{
    if n == 0 {
        Ok(Seq::empty())
    } else {
        match stripes_of(parts, members, (n - 1) as nat) {
            Err(e) => Err(e),
            Ok(before) => match stripe_of(parts[members[n - 1]]) {
                Err(e) => Err(e),
                Ok(stripe) => Ok(before.push(stripe)),
            },
        }
    }
}

/// A volume without a stripe fails the rest the same way.
proof fn stripes_fail<V: Volume>(parts: Seq<Part<V>>, members: Seq<int>, m: nat, n: nat)
    requires
        m <= n,
        stripes_of(parts, members, m) is Err,
    ensures
        stripes_of(parts, members, n) == stripes_of(parts, members, m),
    decreases n,
{
    if m < n {
        stripes_fail(parts, members, m, (n - 1) as nat);
    }
}

/// Recompute a volume's own `blockMapHash`.
fn recompute_stripe<V: Volume>(part: &Part<V>) -> (r: Result<Stripe, (String, Declined)>)
    ensures
        (match r {
            Ok(s) => stripe_of(*part) == Ok::<StripeView, (Seq<char>, Declined)>(s@),
            Err((reason, cause)) => stripe_of(*part) == Err::<StripeView, (Seq<char>, Declined)>(
                (reason@, cause),
            ),
        }),
{
    let volume_arn = part.volume.arn();
    let missing = text::cat3("volume ", volume_arn.as_str(), " declares no map of its own");
    let map = match &part.local_map {
        Some(map) => map,
        None => return Err((missing, Declined::NotSupported)),
    };
    let base = match map.member_name(&volume_arn, NameMapping::Escaped) {
        Some(base) => base,
        None => return Err((missing, Declined::NotSupported)),
    };
    let segments = match read_map_segments(base.as_str(), &part.volume) {
        Ok(segments) => segments,
        Err(e) => return Err(
            (
                text::cat4(
                    "volume ",
                    volume_arn.as_str(),
                    "'s map segments could not be read: ",
                    e.to_string().as_str(),
                ),
                classify_read_failure(&e),
            ),
        ),
    };
    let local = find_local_streams(segments.idx.as_slice(), &part.volume);
    proof {
        assert(arn_texts(local@).len() == local@.len());
    }
    let stream = if local.len() > 0 {
        proof {
            assert(arn_texts(local@)[0] == local@[0]@);
        }
        local[0].clone()
    } else {
        map.clone()
    };
    match block_map_hash_input(&part.volume, &local, &segments) {
        Err(reason) => Err(
            (
                text::cat4(
                    "volume ",
                    volume_arn.as_str(),
                    ": block-hash segment ",
                    reason.as_str(),
                ),
                Declined::Unreadable,
            ),
        ),
        Ok(input) => {
            let stripe = Stripe {
                path: part.path.clone(),
                map: map.clone(),
                stream,
                digest: sha512_raw(input.as_slice()),
            };
            proof {
                assert(stripe_of(*part)->Ok_0 =~= stripe@);
            }
            Ok(stripe)
        },
    }
}

/// Recompute the `blockMapHash` of each of some volumes.
///
/// A root built from a part of the set would mean nothing, so one failure fails
/// them all.
pub fn recompute_stripe_digests<V: Volume>(parts: &Vec<Part<V>>, members: &Vec<usize>) -> (r: Result<
    Vec<Stripe>,
    (String, Declined),
>)
    requires
        forall|i: int| 0 <= i < members@.len() ==> (#[trigger] members@[i]) < parts@.len(),
    ensures
        (match r {
            Ok(list) => stripes_of(parts@, order::positions(members@), members@.len()) == Ok::<
                Seq<StripeView>,
                (Seq<char>, Declined),
            >(stripe_views(list@)) && list@.len() == members@.len(),
            Err((reason, cause)) => stripes_of(
                parts@,
                order::positions(members@),
                members@.len(),
            ) == Err::<Seq<StripeView>, (Seq<char>, Declined)>((reason@, cause)),
        }),
{
    let ghost at = order::positions(members@);
    let mut out: Vec<Stripe> = Vec::new();
    let mut i: usize = 0;
    proof {
        assert(stripe_views(out@) =~= Seq::<StripeView>::empty());
    }
    while i < members.len()
        invariant
            i <= members.len(),
            out@.len() == i,
            at == order::positions(members@),
            forall|k: int| 0 <= k < members@.len() ==> (#[trigger] members@[k]) < parts@.len(),
            stripes_of(parts@, at, i as nat) == Ok::<Seq<StripeView>, (Seq<char>, Declined)>(
                stripe_views(out@),
            ),
        decreases members.len() - i,
    {
        proof {
            assert(at[i as int] == members@[i as int] as int);
            if stripes_of(parts@, at, (i + 1) as nat) is Err {
                stripes_fail(parts@, at, (i + 1) as nat, members@.len());
            }
        }
        match recompute_stripe(&parts[members[i]]) {
            Err(e) => return Err(e),
            Ok(stripe) => {
                let ghost before = out@;
                out.push(stripe);
                proof {
                    assert(stripe_views(out@) =~= stripe_views(before).push(stripe@));
                }
            },
        }
        i = i + 1;
    }
    Ok(out)
}

/// Those of the first `n` volumes that declare an image.
pub open spec fn declaring_parts<V: Volume>(parts: Seq<Part<V>>, arn: Seq<char>, n: nat) -> Seq<int>
    decreases n,
{
    if n == 0 {
        Seq::empty()
    } else {
        let before = declaring_parts(parts, arn, (n - 1) as nat);
        if object_of(parts[n - 1].graph@, arn, DATA_STREAM_IRI@) is Some {
            before.push(n - 1)
        } else {
            before
        }
    }
}

/// The volumes that declare an image.
fn find_declaring<V: Volume>(parts: &Vec<Part<V>>, arn: &Arn) -> (r: Vec<usize>)
    ensures
        order::positions(r@) == declaring_parts(parts@, arn@, parts@.len()),
        forall|i: int| 0 <= i < r@.len() ==> (#[trigger] r@[i]) < parts@.len(),
{
    let mut out: Vec<usize> = Vec::new();
    let mut i: usize = 0;
    proof {
        assert(order::positions(out@) =~= Seq::<int>::empty());
    }
    while i < parts.len()
        invariant
            i <= parts.len(),
            order::positions(out@) == declaring_parts(parts@, arn@, i as nat),
            forall|k: int| 0 <= k < out@.len() ==> (#[trigger] out@[k]) < parts@.len(),
        decreases parts.len() - i,
    {
        if parts[i].graph.object(arn.as_str(), DATA_STREAM_IRI).is_some() {
            let ghost before = out@;
            out.push(i);
            proof {
                assert(order::positions(out@) =~= order::positions(before).push(i as int));
            }
        }
        i = i + 1;
    }
    out
}

/// The check of the `blockMapHash` of an image that one volume holds.
pub open spec fn single_stripe_check<V: Volume>(
    object: ObjectView,
    parts: Seq<Part<V>>,
    index: int,
    hash: StoredHashView,
) -> CheckView {
    match stripe_of(parts[index]) {
        Err((reason, cause)) => skipped_check(
            object.arn,
            object.role,
            hash,
            Coverage::WholeImage,
            reason,
            cause,
        ),
        Ok(stripe) => check_of(
            object.arn,
            object.role,
            hash,
            Coverage::WholeImage,
            text::hex(stripe.digest),
            verdict(same_but_for_case(text::hex(stripe.digest), hash.hex)),
        ),
    }
}

/// Verify the `blockMapHash` of an image that one volume of a set holds: the
/// volume's own, not a digest over several.
pub fn verify_single_volume_block_map_hash<V: Volume, P: ProgressObserver>(
    object: &Aff4Object,
    parts: &Vec<Part<V>>,
    index: usize,
    hash: &StoredHash,
    report: &mut VerificationReport,
    progress: &mut P,
)
    requires
        index < parts@.len(),
    ensures
        final(report)@ == old(report)@.check(
            single_stripe_check(object@, parts@, index as int, hash@),
        ),
        in_step(
            old(progress).log(),
            old(report)@.checks,
            final(progress).log(),
            final(report)@.checks,
        ),
{
    let check = match recompute_stripe(&parts[index]) {
        Err((reason, cause)) => HashCheck::not_recomputed(
            &object.arn,
            object.role,
            hash,
            Coverage::WholeImage,
            reason.as_str(),
            cause,
        ),
        Ok(stripe) => {
            let computed = to_hex(stripe.digest.as_slice());
            let outcome = if eq_ignore_case(computed.as_str(), hash.hex.as_str()) {
                Outcome::Match
            } else {
                Outcome::Mismatch
            };
            HashCheck::concluded(
                &object.arn,
                object.role,
                hash,
                Coverage::WholeImage,
                computed,
                outcome,
            )
        },
    };
    push_check(report, progress, check);
}

/// Whether every `blockMapHash` checked so far matched.
pub open spec fn stripes_intact(checks: Seq<CheckView>) -> bool {
    forall|i: int|
        0 <= i < checks.len() && (#[trigger] checks[i]).predicate == "blockMapHash"@
            ==> checks[i].outcome == OutcomeView::Match
}

/// Whether every `blockMapHash` checked so far matched.
fn all_intact(report: &VerificationReport) -> (r: bool)
    ensures
        r == stripes_intact(report@.checks),
{
    let mut i: usize = 0;
    while i < report.checks.len()
        invariant
            i <= report.checks.len(),
            forall|k: int|
                0 <= k < i && (#[trigger] report@.checks[k]).predicate == "blockMapHash"@
                    ==> report@.checks[k].outcome == OutcomeView::Match,
        decreases report.checks.len() - i,
    {
        proof {
            assert(report@.checks[i as int] == report.checks@[i as int]@);
        }
        let check = &report.checks[i];
        if text::same(check.predicate.as_str(), "blockMapHash") && !check.outcome.is_match() {
            return false;
        }
        i = i + 1;
    }
    true
}

/// What is said of the order that reproduced a root digest.
pub open spec fn inferred_order_text(stripes: Seq<StripeView>, key: StripeOrderKey) -> Seq<char> {
    "the striped image's blockMapHash matched with the stripes in "@ + order_text(key) + " ("@
        + text::joined(
        files_in_order(stripes, order::order_of(stripe_keys(stripes, key))),
        ", "@,
    ) + "); this order is inferred, not recorded in the container"@
}

/// What is said where no order reproduced a root digest.
pub open spec fn unknown_order_text(stripes: Seq<StripeView>, expected: Seq<char>) -> Seq<char> {
    "every stripe verified individually, but the order they combine in is not recorded in the container and none of the orders tried ("@
        + text::joined(orders_tried(stripes, expected), ", "@)
        + ") reproduced this digest. Pass the folder holding them with --split-file, named in acquisition order"@
}

/// What is said where a stripe is known to differ.
pub open spec fn damaged_stripe_text() -> Seq<char> {
    "the striped image's blockMapHash could not match: at least one stripe's own blockMapHash did not match its recorded value, so the inputs to this digest are already known to differ"@
}

/// The digests of some stripes, one after the other.
pub open spec fn stripe_digests(stripes: Seq<StripeView>) -> Seq<Seq<u8>> {
    Seq::new(stripes.len(), |i: int| stripes[i].digest)
}

/// A report after the root digest of an image in a set has been verified.
pub open spec fn root_report<V: Volume>(
    report: ReportView,
    object: ObjectView,
    parts: Seq<Part<V>>,
    hash: StoredHashView,
) -> ReportView {
    let members = declaring_parts(parts, object.arn, parts.len());
    if members.len() <= 1 {
        report.check(
            single_stripe_check(
                object,
                parts,
                if members.len() == 1 {
                    members[0]
                } else {
                    0
                },
                hash,
            ),
        )
    } else {
        match stripes_of(parts, members, members.len()) {
            Err((reason, cause)) => report.check(
                skipped_check(object.arn, object.role, hash, Coverage::WholeImage, reason, cause),
            ),
            Ok(stripes) => match matching_order(stripes, hash.hex) {
                Some(key) => report.note(inferred_order_text(stripes, key)).check(
                    check_of(
                        object.arn,
                        object.role,
                        hash,
                        Coverage::WholeImage,
                        root_of(stripes, key),
                        OutcomeView::Match,
                    ),
                ),
                None => if stripes_intact(report.checks) {
                    report.check(
                        declined_check(
                            object.arn,
                            object.role,
                            hash,
                            Coverage::WholeImage,
                            unknown_order_text(stripes, hash.hex),
                        ),
                    )
                } else {
                    report.note(damaged_stripe_text()).check(
                        check_of(
                            object.arn,
                            object.role,
                            hash,
                            Coverage::WholeImage,
                            text::hex(sha512_digest(bytes::flattened(stripe_digests(stripes)))),
                            OutcomeView::Mismatch,
                        ),
                    )
                },
            },
        }
    }
}

/// The names of the stripes' files in an order, with a comma between each two.
fn list_files(stripes: &Vec<Stripe>, sorted: &Vec<usize>) -> (r: String)
    requires
        forall|i: int| 0 <= i < sorted@.len() ==> (#[trigger] sorted@[i]) < stripes@.len(),
    ensures
        r@ == text::joined(
            files_in_order(stripe_views(stripes@), order::positions(sorted@)),
            ", "@,
        ),
{
    let ghost all = files_in_order(stripe_views(stripes@), order::positions(sorted@));
    let mut names: Vec<String> = Vec::new();
    let mut i: usize = 0;
    while i < sorted.len()
        invariant
            i <= sorted.len(),
            all == files_in_order(stripe_views(stripes@), order::positions(sorted@)),
            forall|k: int| 0 <= k < sorted@.len() ==> (#[trigger] sorted@[k]) < stripes@.len(),
            text::texts(names@) == all.take(i as int),
        decreases sorted.len() - i,
    {
        let ghost before = names@;
        let name = leaf_of(stripes[sorted[i]].path.as_str());
        names.push(name);
        proof {
            assert(all[i as int] == name@);
            assert(text::texts(names@) =~= text::texts(before).push(name@));
            assert(all.take(i + 1) =~= all.take(i as int).push(name@));
        }
        i = i + 1;
    }
    proof {
        assert(all.take(i as int) =~= all);
    }
    text::join(&names, ", ")
}

/// The digests of some stripes, one after the other.
fn join_digests(stripes: &Vec<Stripe>) -> (r: Vec<u8>)
    ensures
        r@ == bytes::flattened(stripe_digests(stripe_views(stripes@))),
{
    let ghost all = stripe_digests(stripe_views(stripes@));
    let mut out: Vec<u8> = Vec::new();
    let mut i: usize = 0;
    while i < stripes.len()
        invariant
            i <= stripes.len(),
            all == stripe_digests(stripe_views(stripes@)),
            out@ == bytes::flattened(all.take(i as int)),
        decreases stripes.len() - i,
    {
        bytes::append(&mut out, stripes[i].digest.as_slice());
        proof {
            assert(all[i as int] == stripes@[i as int].digest@);
            assert(all.take(i + 1) =~= all.take(i as int).push(all[i as int]));
            bytes::flattened_push(all.take(i as int), all[i as int]);
        }
        i = i + 1;
    }
    proof {
        assert(all.take(i as int) =~= all);
    }
    out
}

/// Verify the root digest of an image in a set.
///
/// Only the volumes that declare the image are its stripes. The stripes' digests
/// are recomputed and never taken from what is recorded, so a damaged stripe cannot
/// be hidden. Where no order reproduces the digest, that is a finding only if a
/// stripe is known to differ.
pub fn verify_striped_block_map_hash<V: Volume, P: ProgressObserver>(
    object: &Aff4Object,
    parts: &Vec<Part<V>>,
    hash: &StoredHash,
    report: &mut VerificationReport,
    progress: &mut P,
)
    requires
        parts@.len() > 0,
    ensures
        final(report)@ == root_report(old(report)@, object@, parts@, hash@),
        in_step(
            old(progress).log(),
            old(report)@.checks,
            final(progress).log(),
            final(report)@.checks,
        ),
{
    let members = find_declaring(parts, &object.arn);
    proof {
        assert(order::positions(members@).len() == members@.len());
        in_step_still(progress.log(), report@.checks);
    }
    if members.len() <= 1 {
        let index: usize = if members.len() == 1 {
            proof {
                assert(order::positions(members@)[0] == members@[0] as int);
            }
            members[0]
        } else {
            0
        };
        verify_single_volume_block_map_hash(object, parts, index, hash, report, progress);
        return;
    }
    let stripes = match recompute_stripe_digests(parts, &members) {
        Ok(stripes) => stripes,
        Err((reason, cause)) => {
            push_check(
                report,
                progress,
                HashCheck::not_recomputed(
                    &object.arn,
                    object.role,
                    hash,
                    Coverage::WholeImage,
                    reason.as_str(),
                    cause,
                ),
            );
            return;
        },
    };
    let (matched, tried) = search_stripe_order(&stripes, hash.hex.as_str());
    match matched {
        Some((key, sorted, root)) => {
            report.note(
                text::cat5(
                    "the striped image's blockMapHash matched with the stripes in ",
                    key.describe(),
                    " (",
                    list_files(&stripes, &sorted).as_str(),
                    "); this order is inferred, not recorded in the container",
                ),
            );
            push_check(
                report,
                progress,
                HashCheck::concluded(
                    &object.arn,
                    object.role,
                    hash,
                    Coverage::WholeImage,
                    root,
                    Outcome::Match,
                ),
            );
        },
        None => {
            if all_intact(report) {
                let reason = text::cat3(
                    "every stripe verified individually, but the order they combine in is not recorded in the container and none of the orders tried (",
                    text::join(&tried, ", ").as_str(),
                    ") reproduced this digest. Pass the folder holding them with --split-file, named in acquisition order",
                );
                push_check(
                    report,
                    progress,
                    HashCheck::declined(
                        &object.arn,
                        object.role,
                        hash,
                        Coverage::WholeImage,
                        reason.as_str(),
                    ),
                );
            } else {
                let input = join_digests(&stripes);
                report.note(
                    text::owned(
                        "the striped image's blockMapHash could not match: at least one stripe's own blockMapHash did not match its recorded value, so the inputs to this digest are already known to differ",
                    ),
                );
                let actual = to_hex(sha512_raw(input.as_slice()).as_slice());
                push_check(
                    report,
                    progress,
                    HashCheck::concluded(
                        &object.arn,
                        object.role,
                        hash,
                        Coverage::WholeImage,
                        actual,
                        Outcome::Mismatch,
                    ),
                );
            }
        },
    }
}

} // verus!
