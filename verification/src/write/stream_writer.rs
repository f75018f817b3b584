//! Writing streams.
//!
//! A stream's bytes may arrive in pieces of any length: they are cut into bevies
//! as they come, and the result does not depend on the pieces.

use vstd::prelude::*;

use crate::arn::{member_of, names_resource, not_a_name_text, Arn, NameMapping};
use crate::bytes;
use crate::codec::{codec_iri, handled, Codec, MOST_COMPRESSIBLE};
use crate::error::{malformed, unsupported, Error, ErrorView, Locus, LocusView};
use crate::hash::{
    digest_views, digests_of, digests_under, sha512_digest, sha512_raw, Digest, DigestView,
};
use crate::lexicon::{iri, standard_iri, XSD_LONG};
use crate::model::{algorithm_name, HashAlgorithm};
use crate::rdf::{statement, typed_as, Term, TermView, TripleView};
use crate::stream::{
    after_bevies, after_chunks, at_most, bevies_of, bevy_member_name, index_bounded, index_entry,
    stream_content, ChunkLocation, INDEX_SUFFIX, StreamView,
};
use crate::text;
use crate::verify::blocks::{cut, full_chunks, remainder};
use crate::volume::Volume;
use crate::write::bevy::{
    bevy_block_hash_name, bevy_index_name, bevy_name, chunk_comes_back, index_bytes,
    index_bytes_len, md5_of_each, padded, sha1_of_each, stored_chunks, stored_decodes,
    stored_form,
    unwritten_text, BLOCK_HASH_SUFFIX, BevyBuilder, DEFAULT_CHUNKS_PER_SEGMENT, DEFAULT_CHUNK_SIZE,
    FinishedBevy, STORED_MARGIN,
};
use crate::write::container_writer::{ContainerWriter, MemberView, WriterView};

verus! {

/// How a stream is cut and compressed.
#[derive(Debug, Clone, Copy, PartialEq, Eq, Structural)]
pub struct StreamOptions {
    /// The plain length of each chunk.
    pub chunk_size: usize,
    /// How many chunks fill a bevy.
    pub chunks_per_segment: usize,
    /// How chunks are encoded.
    pub codec: Codec,
    /// Whether the digest of every chunk is recorded.
    pub block_hashes: bool,
    /// The one algorithm to record them under; both MD5 and SHA-1 where none is
    /// named.
    pub block_algorithm: Option<HashAlgorithm>,
}

impl Default for StreamOptions {
    /// Chunks of 32 KiB, 1024 to a bevy, LZ4, with the digest of every chunk.
    fn default() -> (r: Self)
        ensures
            r == default_options(),
    {
        StreamOptions {
            chunk_size: DEFAULT_CHUNK_SIZE,
            chunks_per_segment: DEFAULT_CHUNKS_PER_SEGMENT,
            codec: Codec::Lz4,
            block_hashes: true,
            block_algorithm: None,
        }
    }
}

/// Chunks of 32 KiB, 1024 to a bevy, LZ4, with the digest of every chunk.
pub open spec fn default_options() -> StreamOptions {
    StreamOptions {
        chunk_size: DEFAULT_CHUNK_SIZE,
        chunks_per_segment: DEFAULT_CHUNKS_PER_SEGMENT,
        codec: Codec::Lz4,
        block_hashes: true,
        block_algorithm: None,
    }
}

/// How many plain bytes fill a bevy.
pub open spec fn span_of(o: StreamOptions) -> nat {
    (o.chunk_size * o.chunks_per_segment) as nat
}

/// Whether chunk digests are recorded under an algorithm.
pub open spec fn wants(o: StreamOptions, a: HashAlgorithm) -> bool {
    o.block_hashes && (o.block_algorithm is None || o.block_algorithm == Some(a))
}

/// Whether chunks can be written so and read again.
pub open spec fn chunk_ok(o: StreamOptions) -> bool {
    &&& STORED_MARGIN <= o.chunk_size <= u32::MAX
    &&& o.chunk_size <= MOST_COMPRESSIBLE
}

/// Whether a stream can be written so.
pub open spec fn options_ok(o: StreamOptions) -> bool {
    &&& chunk_ok(o)
    &&& o.chunks_per_segment > 0
    &&& span_of(o) <= usize::MAX
    &&& handled(o.codec)
}

/// What is said of a chunk size that cannot be written.
pub open spec fn unsound_chunk_text(chunk_size: nat) -> Seq<char> {
    "a chunk size of "@ + text::decimal(chunk_size) + " bytes cannot be written"@
}

/// What is said of a bevy length that cannot be written.
pub open spec fn unsound_bevy_text(chunks: nat) -> Seq<char> {
    "bevies of "@ + text::decimal(chunks) + " chunks cannot be written"@
}

/// Why a stream cannot be written so.
pub open spec fn options_fault(o: StreamOptions, locus: LocusView) -> ErrorView {
    if !chunk_ok(o) {
        malformed(locus, unsound_chunk_text(o.chunk_size as nat))
    } else if o.chunks_per_segment == 0 || span_of(o) > usize::MAX {
        malformed(locus, unsound_bevy_text(o.chunks_per_segment as nat))
    } else {
        unsupported(locus, unwritten_text(o.codec))
    }
}

/// Whether a stream can be written so, or why not.
fn check_options(o: StreamOptions, locus: &Locus) -> (r: Result<(), Error>)
    ensures
        (match r {
            Ok(()) => options_ok(o),
            Err(e) => !options_ok(o) && e@ == options_fault(o, locus@),
        }),
{
    if o.chunk_size < STORED_MARGIN || o.chunk_size as u64 > u32::MAX as u64 || o.chunk_size
        > MOST_COMPRESSIBLE {
        return Err(
            Error::malformed(
                locus.clone(),
                text::cat3(
                    "a chunk size of ",
                    text::dec_usize(o.chunk_size).as_str(),
                    " bytes cannot be written",
                ),
            ),
        );
    }
    let fits = o.chunk_size.checked_mul(o.chunks_per_segment).is_some();
    if o.chunks_per_segment == 0 || !fits {
        return Err(
            Error::malformed(
                locus.clone(),
                text::cat3(
                    "bevies of ",
                    text::dec_usize(o.chunks_per_segment).as_str(),
                    " chunks cannot be written",
                ),
            ),
        );
    }
    if !o.codec.is_handled() {
        return Err(
            Error::unsupported(
                locus.clone(),
                text::cat3(
                    "aff4tools declines to write ",
                    o.codec.name(),
                    " — it is not verifiable by this build",
                ),
            ),
        );
    }
    Ok(())
}

/// How many whole bevies some bytes fill.
pub open spec fn whole_bevies(len: nat, o: StreamOptions) -> nat {
    len / span_of(o)
}

/// How many bevies some bytes take, the last perhaps not filled.
pub open spec fn all_bevies(len: nat, o: StreamOptions) -> nat {
    if len % span_of(o) == 0 {
        len / span_of(o)
    } else {
        len / span_of(o) + 1
    }
}

/// The plain bytes of a bevy.
pub open spec fn bevy_slice(content: Seq<u8>, o: StreamOptions, b: nat) -> Seq<u8> {
    let from = b * span_of(o);
    let to = (b + 1) * span_of(o);
    if to <= content.len() {
        content.subrange(from as int, to as int)
    } else {
        content.subrange(from as int, content.len() as int)
    }
}

/// The chunks of a bevy.
pub open spec fn chunks_in(data: Seq<u8>, o: StreamOptions) -> Seq<Seq<u8>> {
    cut(data, o.chunk_size as nat)
}

/// A member that is stored as it is.
pub open spec fn plain_member(name: Seq<char>, data: Seq<u8>) -> MemberView {
    MemberView { name, data, deflated: false }
}

/// The members that a bevy makes: its chunks, their index, and their digests.
pub open spec fn bevy_members(base: Seq<char>, o: StreamOptions, data: Seq<u8>, number: nat) -> Seq<
    MemberView,
> {
    let name = bevy_member_name(base, number);
    let chunks = chunks_in(data, o);
    let stored = stored_chunks(o.codec, o.chunk_size as nat, chunks);
    seq![
        plain_member(name, bytes::flattened(stored)),
        plain_member(name + INDEX_SUFFIX@, index_bytes(stored)),
    ] + (if wants(o, HashAlgorithm::Md5) {
        seq![plain_member(name + BLOCK_HASH_SUFFIX@ + "md5"@, md5_of_each(chunks))]
    } else {
        Seq::empty()
    }) + (if wants(o, HashAlgorithm::Sha1) {
        seq![plain_member(name + BLOCK_HASH_SUFFIX@ + "sha1"@, sha1_of_each(chunks))]
    } else {
        Seq::empty()
    })
}

/// The members that bevies from one number up to another make.
pub open spec fn bevies_between(
    base: Seq<char>,
    o: StreamOptions,
    content: Seq<u8>,
    from: nat,
    to: nat,
) -> Seq<MemberView>
    decreases to,
{
    if to <= from {
        Seq::empty()
    } else {
        bevies_between(base, o, content, from, (to - 1) as nat) + bevy_members(
            base,
            o,
            bevy_slice(content, o, (to - 1) as nat),
            (to - 1) as nat,
        )
    }
}

/// The MD5 digests of the chunks of the first `n` bevies.
pub open spec fn md5_leaves(o: StreamOptions, content: Seq<u8>, n: nat) -> Seq<u8>
    decreases n,
{
    if n == 0 {
        Seq::empty()
    } else {
        md5_leaves(o, content, (n - 1) as nat) + md5_of_each(
            chunks_in(bevy_slice(content, o, (n - 1) as nat), o),
        )
    }
}

/// The SHA-1 digests of the chunks of the first `n` bevies.
pub open spec fn sha1_leaves(o: StreamOptions, content: Seq<u8>, n: nat) -> Seq<u8>
    decreases n,
{
    if n == 0 {
        Seq::empty()
    } else {
        sha1_leaves(o, content, (n - 1) as nat) + sha1_of_each(
            chunks_in(bevy_slice(content, o, (n - 1) as nat), o),
        )
    }
}

/// Whether what a bevy's chunks are stored as fits in memory and decodes to them.
pub open spec fn bevy_decodes(o: StreamOptions, data: Seq<u8>) -> bool {
    let stored = stored_chunks(o.codec, o.chunk_size as nat, chunks_in(data, o));
    &&& stored_decodes(o.codec, o.chunk_size as nat, chunks_in(data, o), stored)
    &&& bytes::flattened(stored).len() <= usize::MAX
}

/// Whether what the chunks of the first `n` bevies are stored as decodes to them.
pub open spec fn all_decode(o: StreamOptions, content: Seq<u8>, n: nat) -> bool {
    forall|b: nat| b < n ==> bevy_decodes(o, #[trigger] bevy_slice(content, o, b))
}

/// Whether what a stream's chunks are stored as decodes to them.
pub open spec fn decodes_back(o: StreamOptions, content: Seq<u8>) -> bool {
    all_decode(o, content, all_bevies(content.len(), o))
}

impl WriterView {
    /// With more members.
    pub open spec fn with_members(self, members: Seq<MemberView>) -> WriterView {
        WriterView { members: self.members + members, ..self }
    }
}

/// Bevies up to one number and from there on are the bevies of both.
proof fn bevies_join(base: Seq<char>, o: StreamOptions, content: Seq<u8>, a: nat, b: nat, c: nat)
    requires
        a <= b <= c,
    ensures
        bevies_between(base, o, content, a, b) + bevies_between(base, o, content, b, c)
            == bevies_between(base, o, content, a, c),
    decreases c,
{
    if b < c {
        bevies_join(base, o, content, a, b, (c - 1) as nat);
        let left = bevies_between(base, o, content, a, b);
        let mid = bevies_between(base, o, content, b, (c - 1) as nat);
        let last = bevy_members(base, o, bevy_slice(content, o, (c - 1) as nat), (c - 1) as nat);
        assert(left + (mid + last) =~= (left + mid) + last);
    } else {
        assert(bevies_between(base, o, content, a, b) + Seq::<MemberView>::empty()
            =~= bevies_between(base, o, content, a, b));
    }
}

/// More content leaves a whole bevy as it is.
proof fn slice_is_stable(content: Seq<u8>, more: Seq<u8>, o: StreamOptions, b: nat)
    requires
        b < whole_bevies(content.len(), o),
        span_of(o) > 0,
    ensures
        bevy_slice(content + more, o, b) == bevy_slice(content, o, b),
        (b + 1) * span_of(o) <= content.len(),
{
    let span = span_of(o);
    assert((b + 1) * span <= content.len()) by (nonlinear_arith)
        requires
            b < content.len() / span,
            span > 0,
    ;
    assert(b * span <= (b + 1) * span) by (nonlinear_arith);
    assert((content + more).subrange((b * span) as int, ((b + 1) * span) as int)
        =~= content.subrange((b * span) as int, ((b + 1) * span) as int));
}

/// More content leaves the digests of whole bevies as they are.
proof fn leaves_are_stable(content: Seq<u8>, more: Seq<u8>, o: StreamOptions, n: nat)
    requires
        n <= whole_bevies(content.len(), o),
        span_of(o) > 0,
    ensures
        md5_leaves(o, content + more, n) == md5_leaves(o, content, n),
        sha1_leaves(o, content + more, n) == sha1_leaves(o, content, n),
    decreases n,
{
    if n > 0 {
        leaves_are_stable(content, more, o, (n - 1) as nat);
        slice_is_stable(content, more, o, (n - 1) as nat);
    }
}

/// Cutting a whole number of chunks off the front leaves the rest to be cut.
pub(crate) proof fn cut_step(data: Seq<u8>, n: nat, k: nat)
    requires
        n > 0,
        k * n <= data.len(),
    ensures
        k < cut(data, n).len() <==> k * n < data.len(),
        k * n < data.len() ==> cut(data, n)[k as int] == (if (k + 1) * n <= data.len() {
            data.subrange((k * n) as int, ((k + 1) * n) as int)
        } else {
            data.subrange((k * n) as int, data.len() as int)
        }),
{
    let whole = data.len() / n;
    assert(whole * n <= data.len() < (whole + 1) * n) by (nonlinear_arith)
        requires
            whole == data.len() / n,
            n > 0,
    ;
    assert(data.len() % n == data.len() - whole * n) by (nonlinear_arith)
        requires
            whole == data.len() / n,
            n > 0,
    ;
    assert(k <= whole) by (nonlinear_arith)
        requires
            k * n <= data.len(),
            data.len() < (whole + 1) * n,
            n > 0,
    ;
    assert(k < whole ==> (k + 1) * n <= data.len() && k * n < data.len()) by (nonlinear_arith)
        requires
            whole * n <= data.len(),
            n > 0,
    ;
    assert(k == whole ==> (k + 1) * n > data.len()) by (nonlinear_arith)
        requires
            data.len() < (whole + 1) * n,
    ;
    if k < whole {
        assert(full_chunks(data, n)[k as int] == data.subrange(
            (k * n) as int,
            ((k + 1) * n) as int,
        )) by {
            assert(k * n + n == (k + 1) * n) by (nonlinear_arith);
        }
    } else {
        assert(k == whole);
        assert(remainder(data, n) =~= data.subrange((k * n) as int, data.len() as int));
    }
}

/// Encode one bevy.
fn encode_bevy(o: StreamOptions, data: &[u8], locus: &Locus) -> (r: FinishedBevy)
    requires
        options_ok(o),
    ensures
        ({
            let chunks = chunks_in(data@, o);
            let stored = stored_chunks(o.codec, o.chunk_size as nat, chunks);
            &&& r.body@ == bytes::flattened(stored)
            &&& r.index@ == index_bytes(stored)
            &&& r.blocks.md5@ == md5_of_each(chunks)
            &&& r.blocks.sha1@ == sha1_of_each(chunks)
        }),
        bevy_decodes(o, data@),
{
    let ghost n = o.chunk_size as nat;
    let ghost all = chunks_in(data@, o);
    let mut builder = BevyBuilder::new(o.codec, o.chunk_size, o.chunks_per_segment);
    let mut at: usize = 0;
    let ghost mut k: nat = 0;
    proof {
        assert(all.take(0) =~= Seq::<Seq<u8>>::empty());
        assert(0 * n == 0) by (nonlinear_arith);
    }
    while at < data.len()
        invariant
            options_ok(o),
            n == o.chunk_size,
            all == chunks_in(data@, o),
            at <= data.len(),
            at < data.len() ==> at == k * n,
            k <= all.len(),
            at == data.len() ==> k == all.len(),
            builder.wf(),
            builder.view().codec == o.codec,
            builder.view().chunk_size == o.chunk_size,
            builder.view().chunks == all.take(k as int),
            builder.view().hashed == all.take(k as int),
        decreases data.len() - at,
    {
        let take: usize = if data.len() - at < o.chunk_size {
            data.len() - at
        } else {
            o.chunk_size
        };
        let chunk = vstd::slice::slice_subrange(data, at, at + take);
        proof {
            cut_step(data@, n, k);
            assert((k + 1) * n == k * n + n) by (nonlinear_arith);
            assert(chunk@ == all[k as int]);
            assert(all.take((k + 1) as int) =~= all.take(k as int).push(chunk@));
            if at + take == data.len() {
                if (k + 1) * n == data.len() {
                    cut_step(data@, n, k + 1);
                } else {
                    last_chunk(data@, n, k);
                }
            }
        }
        let pushed = builder.push_chunk(chunk, locus);
        proof {
            let full = padded(chunk@, n);
            assert(stored_form(o.codec, full, n).len() <= u32::MAX);
            assert(pushed is Ok);
            k = k + 1;
        }
        at = at + take;
    }
    proof {
        if data.len() == 0 {
            cut_step(data@, n, 0);
        }
        assert(all.take(k as int) =~= all);
    }
    let done = builder.finish();
    let length: usize = done.body.len();
    done
}

/// A chunk that reaches the end is the last.
pub(crate) proof fn last_chunk(data: Seq<u8>, n: nat, k: nat)
    requires
        n > 0,
        k * n < data.len() < (k + 1) * n,
    ensures
        cut(data, n).len() == k + 1,
{
    assert(data.len() / n == k) by (nonlinear_arith)
        requires
            n > 0,
            k * n < data.len() < (k + 1) * n,
    ;
    assert(data.len() % n == data.len() - k * n) by (nonlinear_arith)
        requires
            n > 0,
            data.len() / n == k,
    ;
}

/// The digest of a stream's chunk digests under one algorithm.
#[derive(Debug)]
pub struct BlockHashDigest {
    /// The algorithm of the chunk digests.
    pub algorithm: HashAlgorithm,
    /// The SHA-512 of them, one after the other, in hexadecimal.
    pub hex: String,
}

/// The digests of a list, as plain values.
pub open spec fn block_views(list: Seq<BlockHashDigest>) -> Seq<(HashAlgorithm, Seq<char>)> {
    Seq::new(list.len(), |i: int| (list[i].algorithm, list[i].hex@))
}

/// What a chunk digest's algorithm is called in names.
pub open spec fn block_suffix(a: HashAlgorithm) -> Seq<char> {
    if a == HashAlgorithm::Md5 {
        "md5"@
    } else {
        "sha1"@
    }
}

/// The digests of a stream's chunk digests.
pub open spec fn block_digests(o: StreamOptions, content: Seq<u8>) -> Seq<(HashAlgorithm, Seq<char>)> {
    let n = all_bevies(content.len(), o);
    (if wants(o, HashAlgorithm::Md5) {
        seq![
            (HashAlgorithm::Md5, text::hex(sha512_digest(md5_leaves(o, content, n)))),
        ]
    } else {
        Seq::empty()
    }) + (if wants(o, HashAlgorithm::Sha1) {
        seq![
            (HashAlgorithm::Sha1, text::hex(sha512_digest(sha1_leaves(o, content, n)))),
        ]
    } else {
        Seq::empty()
    })
}

/// The statements of digests of a resource, in order.
pub open spec fn digest_triples(arn: Seq<char>, digests: Seq<DigestView>) -> Seq<TripleView> {
    Seq::new(
        digests.len(),
        |i: int|
            statement(
                arn,
                standard_iri("hash"@),
                TermView::Literal(
                    digests[i].hex,
                    standard_iri(algorithm_name(digests[i].algorithm)),
                ),
            ),
    )
}

/// The statement of a resource's length.
pub open spec fn size_triple(arn: Seq<char>, size: nat) -> TripleView {
    statement(arn, standard_iri("size"@), TermView::Literal(text::decimal(size), XSD_LONG@))
}

/// The statement of the volume that a resource is stored in.
pub open spec fn stored_triple(arn: Seq<char>, volume: Seq<char>) -> TripleView {
    statement(arn, standard_iri("stored"@), TermView::Iri(volume))
}

/// The statements about a stream's layout.
pub open spec fn layout_triples(
    arn: Seq<char>,
    volume: Seq<char>,
    o: StreamOptions,
    size: nat,
) -> Seq<TripleView> {
    seq![
        typed_as(arn, standard_iri("ImageStream"@)),
        size_triple(arn, size),
        statement(
            arn,
            standard_iri("chunkSize"@),
            TermView::Literal(text::decimal(o.chunk_size as nat), XSD_LONG@),
        ),
        statement(
            arn,
            standard_iri("chunksInSegment"@),
            TermView::Literal(text::decimal(o.chunks_per_segment as nat), XSD_LONG@),
        ),
        statement(arn, standard_iri("compressionMethod"@), TermView::Iri(codec_iri(o.codec))),
        stored_triple(arn, volume),
    ]
}

/// The statements about the digests of a stream's chunk digests.
pub open spec fn block_triples(arn: Seq<char>, blocks: Seq<(HashAlgorithm, Seq<char>)>) -> Seq<
    TripleView,
>
    decreases blocks.len(),
{
    if blocks.len() == 0 {
        Seq::empty()
    } else {
        let (a, hex) = blocks.last();
        let subject = arn + "/blockhash."@ + block_suffix(a);
        block_triples(arn, blocks.drop_last()).push(
            typed_as(subject, standard_iri("BlockHashes"@)),
        ).push(
            statement(
                subject,
                standard_iri("hash"@),
                TermView::Literal(hex, standard_iri("SHA512"@)),
            ),
        )
    }
}

/// A stream under way, as plain values.
#[verifier::ext_equal]
pub struct BuilderView {
    /// The stream's name.
    pub arn: Seq<char>,
    /// The member name its bevies begin with.
    pub base: Seq<char>,
    /// How it is cut and compressed.
    pub options: StreamOptions,
    /// Its bytes so far.
    pub content: Seq<u8>,
}

impl BuilderView {
    /// With more bytes.
    pub open spec fn with(self, data: Seq<u8>) -> BuilderView {
        BuilderView { content: self.content + data, ..self }
    }

    /// The members written so far: those of the bevies that are filled.
    pub open spec fn whole(self) -> nat {
        whole_bevies(self.content.len(), self.options)
    }

    /// What a writer holds once the stream is closed.
    pub open spec fn closed_in(self, w: WriterView, digests: Seq<DigestView>) -> WriterView {
        let n = all_bevies(self.content.len(), self.options);
        w.with_members(
            bevies_between(self.base, self.options, self.content, self.whole(), n),
        ).state_all(
            layout_triples(self.arn, w.volume, self.options, self.content.len())
                + digest_triples(self.arn, digests) + block_triples(
                self.arn,
                block_digests(self.options, self.content),
            ),
        )
    }
}

/// What is said of a stream outside the volume.
pub open spec fn foreign_stream_text(arn: Seq<char>, volume: Seq<char>) -> Seq<char> {
    "stream "@ + arn + " names no member of volume "@ + volume
}

/// What is said of a stream that is too long.
pub open spec fn endless_stream_text(arn: Seq<char>) -> Seq<char> {
    "stream "@ + arn + " is longer than a size can say"@
}

/// The stream that a name and options begin, or why there is none.
pub open spec fn stream_begun(w: WriterView, arn: Seq<char>, o: StreamOptions, locus: LocusView) -> Result<
    BuilderView,
    ErrorView,
> {
    if !names_resource(arn) {
        Err(malformed(locus, not_a_name_text(arn)))
    } else {
        match member_of(arn, w.volume, w.mapping) {
            None => Err(malformed(locus, foreign_stream_text(arn, w.volume))),
            Some(base) => if !options_ok(o) {
                Err(options_fault(o, locus))
            } else {
                Ok(BuilderView { arn, base, options: o, content: Seq::empty() })
            },
        }
    }
}

/// A stream under way: bytes go in, and bevies come out as they fill.
pub struct StreamBuilder {
    arn: String,
    base: String,
    options: StreamOptions,
    carry: Vec<u8>,
    count: u64,
    size: u64,
    md5: Vec<u8>,
    sha1: Vec<u8>,
    content: Ghost<Seq<u8>>,
}

impl StreamBuilder {
    /// What has been written.
    pub closed spec fn view(&self) -> BuilderView {
        BuilderView {
            arn: self.arn@,
            base: self.base@,
            options: self.options,
            content: self.content@,
        }
    }

    /// Whether the counts and the bytes kept back are those of the content.
    pub closed spec fn wf(&self) -> bool {
        let o = self.options;
        let content = self.content@;
        &&& options_ok(o)
        &&& self.size == content.len()
        &&& self.count == whole_bevies(content.len(), o)
        &&& self.carry@ == content.skip((self.count * span_of(o)) as int)
        &&& self.carry@.len() < span_of(o)
        &&& self.count * span_of(o) <= content.len()
        &&& self.md5@ == md5_leaves(o, content, self.count as nat)
        &&& self.sha1@ == sha1_leaves(o, content, self.count as nat)
        &&& all_decode(o, content, self.count as nat)
    }

    /// Begin a stream.
    pub fn new(writer: &ContainerWriter, arn: &str, options: StreamOptions, locus: &Locus) -> (r: Result<
        Self,
        Error,
    >)
        ensures
            (match r {
                Ok(b) => b.wf() && stream_begun(writer.view(), arn@, options, locus@) == Ok::<
                    BuilderView,
                    ErrorView,
                >(b.view()),
                Err(e) => stream_begun(writer.view(), arn@, options, locus@) == Err::<
                    BuilderView,
                    ErrorView,
                >(e@),
            }),
    {
        let name = match Arn::parse(arn, locus) {
            Ok(name) => name,
            Err(e) => return Err(e),
        };
        let base = match name.member_name(writer.volume_arn(), writer.name_mapping()) {
            Some(base) => base,
            None => return Err(
                Error::malformed(
                    locus.clone(),
                    text::cat4(
                        "stream ",
                        arn,
                        " names no member of volume ",
                        writer.volume_arn().as_str(),
                    ),
                ),
            ),
        };
        match check_options(options, locus) {
            Ok(()) => {},
            Err(e) => return Err(e),
        }
        let b = StreamBuilder {
            arn: text::owned(arn),
            base,
            options,
            carry: Vec::new(),
            count: 0,
            size: 0,
            md5: Vec::new(),
            sha1: Vec::new(),
            content: Ghost(Seq::empty()),
        };
        proof {
            span_is_positive(options);
            assert(0nat / span_of(options) == 0) by (nonlinear_arith)
                requires
                    span_of(options) > 0,
            ;
            assert(0 * span_of(options) == 0) by (nonlinear_arith);
            assert(b.carry@ =~= b.content@.skip(0));
        }
        Ok(b)
    }

    /// The stream's name.
    pub fn arn(&self) -> (r: &str)
        ensures
            r@ == self.view().arn,
    {
        self.arn.as_str()
    }

    /// How many bytes the stream has so far.
    pub fn size(&self) -> (r: u64)
        requires
            self.wf(),
        ensures
            r == self.view().content.len(),
    {
        self.size
    }

    /// Write a bevy's members.
    fn emit(&mut self, data: &[u8], number: u64, writer: &mut ContainerWriter, locus: &Locus)
        requires
            options_ok(old(self).view().options),
        ensures
            final(self).arn == old(self).arn,
            final(self).base == old(self).base,
            final(self).options == old(self).options,
            final(self).carry == old(self).carry,
            final(self).count == old(self).count,
            final(self).size == old(self).size,
            final(self).content == old(self).content,
            final(self).md5@ == old(self).md5@ + md5_of_each(chunks_in(data@, old(self).options)),
            final(self).sha1@ == old(self).sha1@ + sha1_of_each(
                chunks_in(data@, old(self).options),
            ),
            final(writer).view() == old(writer).view().with_members(
                bevy_members(old(self).base@, old(self).options, data@, number as nat),
            ),
            bevy_decodes(old(self).options, data@),
    {
        let done = encode_bevy(self.options, data, locus);
        let base = self.base.as_str();
        let ghost before = writer.view();
        writer.add_stored_segment(bevy_name(base, number).as_str(), done.body.as_slice());
        writer.add_stored_segment(bevy_index_name(base, number).as_str(), done.index.as_slice());
        let md5_wanted = self.options.block_hashes && (match self.options.block_algorithm {
            None => true,
            Some(a) => a == HashAlgorithm::Md5,
        });
        let sha1_wanted = self.options.block_hashes && (match self.options.block_algorithm {
            None => true,
            Some(a) => a == HashAlgorithm::Sha1,
        });
        if md5_wanted {
            writer.add_stored_segment(
                bevy_block_hash_name(base, number, "md5").as_str(),
                done.blocks.md5.as_slice(),
            );
        }
        if sha1_wanted {
            writer.add_stored_segment(
                bevy_block_hash_name(base, number, "sha1").as_str(),
                done.blocks.sha1.as_slice(),
            );
        }
        proof {
            assert(writer.view() =~= before.with_members(
                bevy_members(self.base@, self.options, data@, number as nat),
            ));
        }
        bytes::append(&mut self.md5, done.blocks.md5.as_slice());
        bytes::append(&mut self.sha1, done.blocks.sha1.as_slice());
    }

    /// Add bytes to the stream, writing the bevies that they fill.
    pub fn append(&mut self, data: &[u8], writer: &mut ContainerWriter, locus: &Locus) -> (r: Result<
        (),
        Error,
    >)
        requires
            old(self).wf(),
        ensures
            final(self).wf(),
            (match r {
                Ok(()) => {
                    let after = old(self).view().with(data@);
                    &&& old(self).view().content.len() + data@.len() <= u64::MAX
                    &&& final(self).view() == after
                    &&& final(writer).view() == old(writer).view().with_members(
                        bevies_between(
                            after.base,
                            after.options,
                            after.content,
                            old(self).view().whole(),
                            after.whole(),
                        ),
                    )
                },
                Err(e) => {
                    &&& old(self).view().content.len() + data@.len() > u64::MAX
                    &&& e@ == malformed(locus@, endless_stream_text(old(self).view().arn))
                    &&& final(self).view() == old(self).view()
                    &&& final(writer).view() == old(writer).view()
                },
            }),
    {
        if self.size.checked_add(data.len() as u64).is_none() {
            return Err(
                Error::malformed(
                    locus.clone(),
                    text::cat3("stream ", self.arn.as_str(), " is longer than a size can say"),
                ),
            );
        }
        let ghost o = self.options;
        let ghost span = span_of(o);
        let ghost content0 = self.content@;
        let ghost from = whole_bevies(content0.len(), o);
        proof {
            assert(self.options.chunk_size * self.options.chunks_per_segment == span) by {
                assert(o.chunk_size * o.chunks_per_segment >= 0) by (nonlinear_arith);
            }
            span_is_positive(o);
        }
        let width: usize = self.options.chunk_size * self.options.chunks_per_segment;
        let mut at: usize = 0;
        proof {
            assert(content0 + data@.take(0) =~= content0);
            assert(writer.view() =~= old(writer).view().with_members(
                bevies_between(self.base@, o, content0, from, from),
            ));
        }
        while at < data.len()
            invariant
                at <= data.len(),
                width == span,
                span == span_of(o),
                span > 0,
                o == self.options,
                content0.len() + data@.len() <= u64::MAX,
                from == whole_bevies(content0.len(), o),
                self.wf(),
                self.arn == old(self).arn,
                self.base == old(self).base,
                self.content@ == content0 + data@.take(at as int),
                from <= self.count,
                writer.view() == old(writer).view().with_members(
                    bevies_between(
                        self.base@,
                        o,
                        self.content@,
                        from,
                        whole_bevies(self.content@.len(), o),
                    ),
                ),
            decreases data.len() - at,
        {
            let room: usize = width - self.carry.len();
            let take: usize = if data.len() - at < room {
                data.len() - at
            } else {
                room
            };
            let piece = vstd::slice::slice_subrange(data, at, at + take);
            let ghost before = self.content@;
            let ghost number = self.count;
            let ghost w0 = writer.view();
            let ghost after = before + piece@;
            proof {
                assert(data@.take(at + take) =~= data@.take(at as int) + piece@);
                assert(content0 + data@.take(at + take) =~= after);
                grown_by(before, piece@, o, number as nat);
            }
            bytes::append(&mut self.carry, piece);
            self.content = Ghost(after);
            self.size = self.size + take as u64;
            proof {
                leaves_are_stable(before, piece@, o, number as nat);
                assert forall|b: nat| b < number implies bevy_decodes(
                    o,
                    #[trigger] bevy_slice(after, o, b),
                ) by {
                    slice_is_stable(before, piece@, o, b);
                    assert(bevy_decodes(o, bevy_slice(before, o, b)));
                }
                bevies_are_stable(self.base@, o, before, piece@, from, number as nat);
                assert(self.carry@ =~= after.skip((number * span) as int));
            }
            if self.carry.len() == width {
                let mut full: Vec<u8> = Vec::new();
                std::mem::swap(&mut full, &mut self.carry);
                let index: u64 = self.count;
                proof {
                    assert(full@ =~= bevy_slice(after, o, number as nat)) by {
                        assert((number + 1) * span == number * span + span) by (nonlinear_arith);
                    }
                }
                self.emit(full.as_slice(), index, writer, locus);
                self.count = self.count + 1;
                proof {
                    assert((number + 1) * span == number * span + span) by (nonlinear_arith);
                    assert(self.carry@ =~= after.skip((self.count * span) as int));
                    assert forall|b: nat| b < self.count implies bevy_decodes(
                        o,
                        #[trigger] bevy_slice(after, o, b),
                    ) by {
                        if b == number {
                            assert(bevy_slice(after, o, b) == full@);
                        }
                    }
                    let old_part = bevies_between(self.base@, o, after, from, number as nat);
                    let new_part = bevy_members(self.base@, o, full@, number as nat);
                    assert(old(writer).view().members + (old_part + new_part) =~= (old(
                        writer,
                    ).view().members + old_part) + new_part);
                    assert(writer.view() =~= old(writer).view().with_members(
                        bevies_between(self.base@, o, after, from, self.count as nat),
                    ));
                }
            }
            at = at + take;
        }
        proof {
            assert(data@.take(at as int) =~= data@);
            assert(self.view() =~= old(self).view().with(data@));
        }
        Ok(())
    }
}

/// A bevy that can be written has bytes.
pub(crate) proof fn span_is_positive(o: StreamOptions)
    requires
        options_ok(o),
    ensures
        span_of(o) > 0,
        span_of(o) == o.chunk_size * o.chunks_per_segment,
{
    assert(o.chunk_size * o.chunks_per_segment > 0) by (nonlinear_arith)
        requires
            o.chunk_size > 0,
            o.chunks_per_segment > 0,
    ;
}

/// Adding no more bytes than fill the bevy in progress fills at most that one.
proof fn grown_by(content: Seq<u8>, more: Seq<u8>, o: StreamOptions, n: nat)
    requires
        span_of(o) > 0,
        n == whole_bevies(content.len(), o),
        content.len() - n * span_of(o) + more.len() <= span_of(o),
        n * span_of(o) <= content.len(),
    ensures
        whole_bevies((content + more).len(), o) == (if content.len() - n * span_of(o) + more.len()
            == span_of(o) {
            n + 1
        } else {
            n
        }),
        n + 1 <= (content + more).len() + 1,
{
    let span = span_of(o);
    let len = (content + more).len();
    if len == n * span + span {
        assert(len / span == n + 1) by (nonlinear_arith)
            requires
                len == n * span + span,
                span > 0,
        ;
    } else {
        assert(len / span == n) by (nonlinear_arith)
            requires
                n * span <= len < n * span + span,
                span > 0,
        ;
    }
    assert(n <= content.len()) by (nonlinear_arith)
        requires
            n * span <= content.len(),
            span > 0,
    ;
}

/// More content leaves the members of whole bevies as they are.
proof fn bevies_are_stable(
    base: Seq<char>,
    o: StreamOptions,
    content: Seq<u8>,
    more: Seq<u8>,
    from: nat,
    n: nat,
)
    requires
        span_of(o) > 0,
        n <= whole_bevies(content.len(), o),
    ensures
        bevies_between(base, o, content + more, from, n) == bevies_between(
            base,
            o,
            content,
            from,
            n,
        ),
    decreases n,
{
    if n > from {
        bevies_are_stable(base, o, content, more, from, (n - 1) as nat);
        slice_is_stable(content, more, o, (n - 1) as nat);
    }
}

/// State digests of a resource.
pub fn add_digests(writer: &mut ContainerWriter, arn: &str, digests: &Vec<Digest>)
    ensures
        final(writer).view() == old(writer).view().state_all(
            digest_triples(arn@, digest_views(digests@)),
        ),
{
    let ghost all = digest_triples(arn@, digest_views(digests@));
    let ghost start = writer.view();
    let mut i: usize = 0;
    proof {
        assert(writer.view() =~= start.state_all(all.take(0)));
    }
    while i < digests.len()
        invariant
            i <= digests.len(),
            all == digest_triples(arn@, digest_views(digests@)),
            writer.view() == start.state_all(all.take(i as int)),
        decreases digests.len() - i,
    {
        let digest = &digests[i];
        writer.add(
            arn,
            iri("hash").as_str(),
            Term::typed(digest.hex(), iri(digest.algorithm().name()).as_str()),
        );
        proof {
            assert(digest_views(digests@)[i as int] == digest@);
            assert(all.take(i + 1) =~= all.take(i as int).push(all[i as int]));
            assert(writer.view() =~= start.state_all(all.take(i + 1)));
        }
        i = i + 1;
    }
    proof {
        assert(all.take(i as int) =~= all);
    }
}

/// State a resource's length.
pub fn add_size(writer: &mut ContainerWriter, arn: &str, size: u64)
    ensures
        final(writer).view() == old(writer).view().state(size_triple(arn@, size as nat)),
{
    writer.add(arn, iri("size").as_str(), Term::typed(text::dec(size).as_str(), XSD_LONG));
}

/// State the volume that a resource is stored in.
pub fn add_stored(writer: &mut ContainerWriter, arn: &str, volume: &str)
    ensures
        final(writer).view() == old(writer).view().state(stored_triple(arn@, volume@)),
{
    writer.add(arn, iri("stored").as_str(), Term::iri(volume));
}

/// State a stream's layout.
fn add_layout(writer: &mut ContainerWriter, arn: &str, o: StreamOptions, size: u64)
    ensures
        final(writer).view() == old(writer).view().state_all(
            layout_triples(arn@, old(writer).view().volume, o, size as nat),
        ),
{
    let ghost start = writer.view();
    let volume = text::owned(writer.volume_arn().as_str());
    writer.add_type(arn, iri("ImageStream").as_str());
    add_size(writer, arn, size);
    writer.add(
        arn,
        iri("chunkSize").as_str(),
        Term::typed(text::dec_usize(o.chunk_size).as_str(), XSD_LONG),
    );
    writer.add(
        arn,
        iri("chunksInSegment").as_str(),
        Term::typed(text::dec_usize(o.chunks_per_segment).as_str(), XSD_LONG),
    );
    writer.add(arn, iri("compressionMethod").as_str(), Term::iri(o.codec.iri()));
    add_stored(writer, arn, volume.as_str());
    proof {
        assert(writer.view() =~= start.state_all(
            layout_triples(arn@, start.volume, o, size as nat),
        ));
    }
}

/// State the digests of a stream's chunk digests.
fn add_blocks(writer: &mut ContainerWriter, arn: &str, blocks: &Vec<BlockHashDigest>)
    ensures
        final(writer).view() == old(writer).view().state_all(
            block_triples(arn@, block_views(blocks@)),
        ),
{
    let ghost all = block_views(blocks@);
    let ghost start = writer.view();
    let mut i: usize = 0;
    proof {
        assert(all.take(0) =~= Seq::<(HashAlgorithm, Seq<char>)>::empty());
        assert(writer.view() =~= start.state_all(block_triples(arn@, all.take(0))));
    }
    while i < blocks.len()
        invariant
            i <= blocks.len(),
            all == block_views(blocks@),
            writer.view() == start.state_all(block_triples(arn@, all.take(i as int))),
        decreases blocks.len() - i,
    {
        let block = &blocks[i];
        let suffix = if block.algorithm == HashAlgorithm::Md5 {
            "md5"
        } else {
            "sha1"
        };
        let subject = text::cat3(arn, "/blockhash.", suffix);
        writer.add_type(subject.as_str(), iri("BlockHashes").as_str());
        writer.add(
            subject.as_str(),
            iri("hash").as_str(),
            Term::typed(block.hex.as_str(), iri("SHA512").as_str()),
        );
        proof {
            assert(all.take(i + 1).drop_last() =~= all.take(i as int));
            assert(all.take(i + 1).last() == (block.algorithm, block.hex@));
            assert(writer.view() =~= start.state_all(block_triples(arn@, all.take(i + 1))));
        }
        i = i + 1;
    }
    proof {
        assert(all.take(i as int) =~= all);
    }
}

impl StreamBuilder {
    /// Close the stream: write the bevy in progress, if there is one, and state
    /// what the stream is. `digests` are those of its bytes that are to be recorded.
    pub fn finish(self, digests: &Vec<Digest>, writer: &mut ContainerWriter, locus: &Locus) -> (r: Vec<
        BlockHashDigest,
    >)
        requires
            self.wf(),
        ensures
            final(writer).view() == self.view().closed_in(
                old(writer).view(),
                digest_views(digests@),
            ),
            block_views(r@) == block_digests(self.view().options, self.view().content),
            decodes_back(self.view().options, self.view().content),
            options_ok(self.view().options),
    {
        let ghost o = self.options;
        let ghost content = self.content@;
        let ghost base = self.base@;
        let ghost span = span_of(o);
        let ghost n = all_bevies(content.len(), o);
        let ghost whole = whole_bevies(content.len(), o);
        let ghost w0 = writer.view();
        let mut b = self;
        proof {
            span_is_positive(o);
            assert(content.len() % span == content.len() - whole * span) by (nonlinear_arith)
                requires
                    whole == content.len() / span,
                    span > 0,
            ;
        }
        if b.carry.len() > 0 {
            let mut rest: Vec<u8> = Vec::new();
            std::mem::swap(&mut rest, &mut b.carry);
            let index: u64 = b.count;
            proof {
                assert((whole + 1) * span == whole * span + span) by (nonlinear_arith);
                assert(rest@ =~= bevy_slice(content, o, whole));
            }
            b.emit(rest.as_slice(), index, writer, locus);
            proof {
                assert(bevies_between(base, o, content, whole, whole)
                    =~= Seq::<MemberView>::empty());
                assert(bevies_between(base, o, content, whole, n) =~= bevy_members(
                    base,
                    o,
                    rest@,
                    whole,
                ));
                assert forall|k: nat| k < n implies bevy_decodes(
                    o,
                    #[trigger] bevy_slice(content, o, k),
                ) by {
                    if k == whole {
                        assert(bevy_slice(content, o, k) == rest@);
                    }
                }
            }
        } else {
            proof {
                assert(writer.view() =~= w0.with_members(
                    bevies_between(base, o, content, whole, n),
                ));
            }
        }
        let ghost w1 = writer.view();
        let mut blocks: Vec<BlockHashDigest> = Vec::new();
        let md5_wanted = b.options.block_hashes && (match b.options.block_algorithm {
            None => true,
            Some(a) => a == HashAlgorithm::Md5,
        });
        let sha1_wanted = b.options.block_hashes && (match b.options.block_algorithm {
            None => true,
            Some(a) => a == HashAlgorithm::Sha1,
        });
        if md5_wanted {
            blocks.push(
                BlockHashDigest {
                    algorithm: HashAlgorithm::Md5,
                    hex: text::hex_lower(sha512_raw(b.md5.as_slice()).as_slice()),
                },
            );
        }
        if sha1_wanted {
            blocks.push(
                BlockHashDigest {
                    algorithm: HashAlgorithm::Sha1,
                    hex: text::hex_lower(sha512_raw(b.sha1.as_slice()).as_slice()),
                },
            );
        }
        proof {
            assert(block_views(blocks@) =~= block_digests(o, content));
        }
        add_layout(writer, b.arn.as_str(), b.options, b.size);
        add_digests(writer, b.arn.as_str(), digests);
        add_blocks(writer, b.arn.as_str(), &blocks);
        proof {
            let layout = layout_triples(b.arn@, w0.volume, o, content.len());
            let dt = digest_triples(b.arn@, digest_views(digests@));
            let bt = block_triples(b.arn@, block_digests(o, content));
            assert(((w1.graph + layout) + dt) + bt =~= w1.graph + (layout + dt + bt));
            assert(writer.view() =~= self.view().closed_in(w0, digest_views(digests@)));
        }
        blocks
    }
}

/// What a written stream turned out to be.
#[derive(Debug)]
pub struct WrittenStream {
    /// The stream's name.
    pub arn: String,
    /// Its length.
    pub size: u64,
    /// The digests of its bytes.
    pub digests: Vec<Digest>,
    /// The digests of its chunk digests.
    pub block_hash_digests: Vec<BlockHashDigest>,
}

/// A stream of some bytes, from beginning to end.
pub open spec fn stream_of(begun: BuilderView, data: Seq<u8>) -> BuilderView {
    BuilderView { content: data, ..begun }
}

/// What a writer holds once a stream of some bytes has been written.
pub open spec fn stream_written(
    w: WriterView,
    begun: BuilderView,
    data: Seq<u8>,
    algorithms: Seq<HashAlgorithm>,
) -> WriterView {
    let b = stream_of(begun, data);
    w.with_members(
        bevies_between(b.base, b.options, data, 0, all_bevies(data.len(), b.options)),
    ).state_all(
        layout_triples(b.arn, w.volume, b.options, data.len()) + digest_triples(
            b.arn,
            digests_under(algorithms, data),
        ) + block_triples(b.arn, block_digests(b.options, data)),
    )
}

/// The first of some pieces, and one more.
proof fn pieces_grow(pieces: Seq<Seq<u8>>, i: int)
    requires
        0 <= i < pieces.len(),
    ensures
        bytes::flattened(pieces.take(i + 1)) == bytes::flattened(pieces.take(i)) + pieces[i],
        bytes::flattened(pieces.take(i + 1)).len() <= bytes::flattened(pieces).len(),
    decreases pieces.len(),
{
    assert(pieces.take(i + 1) =~= pieces.take(i).push(pieces[i]));
    bytes::flattened_push(pieces.take(i), pieces[i]);
    if i + 1 == pieces.len() {
        assert(pieces.take(i + 1) =~= pieces);
    } else {
        pieces_grow(pieces.drop_last(), i);
        assert(pieces.drop_last().take(i + 1) =~= pieces.take(i + 1));
    }
}

/// Write a stream of pieces one after the other under a name, without a digest of its
/// own. The pieces are handed on one by one.
///
/// Where it fails, nothing has been written.
pub fn write_pieces_as(
    writer: &mut ContainerWriter,
    arn: &str,
    pieces: &Vec<Vec<u8>>,
    options: StreamOptions,
    locus: &Locus,
) -> (r: Result<(), Error>)
    requires
        bytes::flattened(bytes::views(pieces@)).len() <= u64::MAX,
    ensures
        (match r {
            Ok(()) => {
                &&& stream_begun(old(writer).view(), arn@, options, locus@) is Ok
                &&& final(writer).view() == stream_written(
                    old(writer).view(),
                    stream_begun(old(writer).view(), arn@, options, locus@)->Ok_0,
                    bytes::flattened(bytes::views(pieces@)),
                    Seq::<HashAlgorithm>::empty(),
                )
                &&& decodes_back(options, bytes::flattened(bytes::views(pieces@)))
            },
            Err(e) => {
                &&& stream_begun(old(writer).view(), arn@, options, locus@) == Err::<
                    BuilderView,
                    ErrorView,
                >(e@)
                &&& final(writer).view() == old(writer).view()
            },
        }),
{
    let mut builder = match StreamBuilder::new(writer, arn, options, locus) {
        Ok(b) => b,
        Err(e) => return Err(e),
    };
    let ghost w0 = writer.view();
    let ghost begun = builder.view();
    let ghost all = bytes::views(pieces@);
    let mut i: usize = 0;
    proof {
        span_is_positive(options);
        assert(all.take(0) =~= Seq::<Seq<u8>>::empty());
        assert(begun.content + Seq::<u8>::empty() =~= begun.content);
        assert(0nat / span_of(options) == 0) by (nonlinear_arith)
            requires
                span_of(options) > 0,
        ;
        assert(w0.with_members(bevies_between(begun.base, options, begun.content, 0, 0)) =~= w0);
    }
    while i < pieces.len()
        invariant
            i <= pieces.len(),
            all == bytes::views(pieces@),
            bytes::flattened(all).len() <= u64::MAX,
            span_of(options) > 0,
            begun.options == options,
            begun.content == Seq::<u8>::empty(),
            builder.wf(),
            builder.view() == stream_of(begun, bytes::flattened(all.take(i as int))),
            writer.view() == w0.with_members(
                bevies_between(
                    begun.base,
                    options,
                    bytes::flattened(all.take(i as int)),
                    0,
                    builder.view().whole(),
                ),
            ),
        decreases pieces.len() - i,
    {
        let ghost before = builder.view();
        let ghost w1 = writer.view();
        proof {
            assert(all[i as int] == pieces@[i as int]@);
            pieces_grow(all, i as int);
        }
        match builder.append(pieces[i].as_slice(), writer, locus) {
            Ok(()) => {},
            Err(e) => {
                proof {
                    assert(false);
                }
                return Err(e);
            },
        }
        proof {
            let after = builder.view();
            let more = pieces@[i as int]@;
            vstd::arithmetic::div_mod::lemma_div_is_ordered(
                before.content.len() as int,
                after.content.len() as int,
                span_of(options) as int,
            );
            bevies_are_stable(begun.base, options, before.content, more, 0, before.whole());
            bevies_join(begun.base, options, after.content, 0, before.whole(), after.whole());
            let first = bevies_between(begun.base, options, after.content, 0, before.whole());
            let rest = bevies_between(
                begun.base,
                options,
                after.content,
                before.whole(),
                after.whole(),
            );
            assert((w0.members + first) + rest =~= w0.members + (first + rest));
            assert(after =~= stream_of(begun, bytes::flattened(all.take(i + 1))));
            assert(writer.view() =~= w0.with_members(
                bevies_between(begun.base, options, after.content, 0, after.whole()),
            ));
        }
        i = i + 1;
    }
    let none: Vec<Digest> = Vec::new();
    let ghost data = bytes::flattened(all);
    let ghost whole = whole_bevies(data.len(), options);
    let ghost n = all_bevies(data.len(), options);
    proof {
        assert(all.take(i as int) =~= all);
        assert(digest_views(none@) =~= digests_under(Seq::<HashAlgorithm>::empty(), data));
        bevies_join(begun.base, options, data, 0, whole, n);
    }
    let _ = builder.finish(&none, writer, locus);
    proof {
        let first = bevies_between(begun.base, options, data, 0, whole);
        let rest = bevies_between(begun.base, options, data, whole, n);
        assert((w0.members + first) + rest =~= w0.members + (first + rest));
        assert(writer.view() =~= stream_written(
            w0,
            begun,
            data,
            Seq::<HashAlgorithm>::empty(),
        ));
    }
    Ok(())
}

/// Write a stream of some bytes under a name.
///
/// Where it fails, nothing has been written.
pub fn write_image_stream_as(
    writer: &mut ContainerWriter,
    arn: &str,
    data: &[u8],
    options: StreamOptions,
    algorithms: &[HashAlgorithm],
    locus: &Locus,
) -> (r: Result<WrittenStream, Error>)
    ensures
        (match r {
            Ok(s) => {
                &&& stream_begun(old(writer).view(), arn@, options, locus@) is Ok
                &&& final(writer).view() == stream_written(
                    old(writer).view(),
                    stream_begun(old(writer).view(), arn@, options, locus@)->Ok_0,
                    data@,
                    algorithms@,
                )
                &&& s.arn@ == arn@
                &&& s.size == data@.len()
                &&& digest_views(s.digests@) == digests_under(algorithms@, data@)
                &&& block_views(s.block_hash_digests@) == block_digests(options, data@)
                &&& decodes_back(options, data@)
            },
            Err(e) => {
                &&& stream_begun(old(writer).view(), arn@, options, locus@) == Err::<
                    BuilderView,
                    ErrorView,
                >(e@)
                &&& final(writer).view() == old(writer).view()
            },
        }),
{
    let mut builder = match StreamBuilder::new(writer, arn, options, locus) {
        Ok(b) => b,
        Err(e) => return Err(e),
    };
    let ghost w0 = writer.view();
    let ghost begun = builder.view();
    let length: usize = data.len();
    proof {
        assert(length == data@.len());
    }
    match builder.append(data, writer, locus) {
        Ok(()) => {},
        Err(e) => return Err(e),
    }
    let size: u64 = builder.size();
    let digests = digests_of(data, algorithms);
    let ghost whole = whole_bevies(data@.len(), options);
    let ghost n = all_bevies(data@.len(), options);
    proof {
        assert(begun.content + data@ =~= data@);
        span_is_positive(options);
        assert(0nat / span_of(options) == 0) by (nonlinear_arith)
            requires
                span_of(options) > 0,
        ;
        bevies_join(begun.base, options, data@, 0, whole, n);
    }
    let blocks = builder.finish(&digests, writer, locus);
    proof {
        let first = bevies_between(begun.base, options, data@, 0, whole);
        let rest = bevies_between(begun.base, options, data@, whole, n);
        assert((w0.members + first) + rest =~= w0.members + (first + rest));
        assert(writer.view() =~= stream_written(w0, begun, data@, algorithms@));
    }
    Ok(
        WrittenStream {
            arn: text::owned(arn),
            size,
            digests,
            block_hash_digests: blocks,
        },
    )
}

/// Write a stream of some bytes under the volume's own name for data.
pub fn write_image_stream(
    writer: &mut ContainerWriter,
    data: &[u8],
    options: StreamOptions,
    algorithms: &[HashAlgorithm],
    locus: &Locus,
) -> (r: Result<WrittenStream, Error>)
    ensures
        ({
            let arn = old(writer).view().volume + "/data"@;
            match r {
                Ok(s) => {
                    &&& stream_begun(old(writer).view(), arn, options, locus@) is Ok
                    &&& final(writer).view() == stream_written(
                        old(writer).view(),
                        stream_begun(old(writer).view(), arn, options, locus@)->Ok_0,
                        data@,
                        algorithms@,
                    )
                    &&& s.arn@ == arn
                    &&& s.size == data@.len()
                    &&& digest_views(s.digests@) == digests_under(algorithms@, data@)
                    &&& block_views(s.block_hash_digests@) == block_digests(options, data@)
                    &&& decodes_back(options, data@)
                },
                Err(e) => {
                    &&& stream_begun(old(writer).view(), arn, options, locus@) == Err::<
                        BuilderView,
                        ErrorView,
                    >(e@)
                    &&& final(writer).view() == old(writer).view()
                },
            }
        }),
{
    let arn = text::cat2(writer.volume_arn().as_str(), "/data");
    write_image_stream_as(writer, arn.as_str(), data, options, algorithms, locus)
}

/// Whether a volume gives back what some members hold.
pub open spec fn serves<V: Volume>(volume: &V, members: Seq<MemberView>) -> bool {
    forall|i: int|
        0 <= i < members.len() ==> volume.outcome((#[trigger] members[i]).name) == Ok::<
            Seq<u8>,
            ErrorView,
        >(members[i].data)
}

/// Whether a volume holds a stream as it was written.
pub open spec fn holds<V: Volume>(volume: &V, b: BuilderView) -> bool {
    &&& options_ok(b.options)
    &&& b.content.len() <= u64::MAX
    &&& member_of(b.arn, volume.name(), NameMapping::Escaped) == Some(b.base)
    &&& decodes_back(b.options, b.content)
    &&& serves(
        volume,
        bevies_between(b.base, b.options, b.content, 0, all_bevies(b.content.len(), b.options)),
    )
}

/// How a stream is described once it has been written.
pub open spec fn described(b: BuilderView) -> StreamView {
    StreamView {
        arn: b.arn,
        size: b.content.len() as u64,
        chunk_size: b.options.chunk_size,
        chunks_in_segment: b.options.chunks_per_segment,
        codec: b.options.codec,
    }
}

/// The chunks of a bevy, one after the other, are its bytes: what has been
/// delivered after `k` of them.
proof fn chunks_read_back(
    b: BuilderView,
    number: nat,
    locus: LocusView,
    k: nat,
)
    requires
        options_ok(b.options),
        b.content.len() <= u64::MAX,
        number * span_of(b.options) < b.content.len(),
        bevy_decodes(b.options, bevy_slice(b.content, b.options, number)),
        k <= chunks_in(bevy_slice(b.content, b.options, number), b.options).len(),
    ensures
        ({
            let o = b.options;
            let chunks = chunks_in(bevy_slice(b.content, o, number), o);
            let stored = stored_chunks(o.codec, o.chunk_size as nat, chunks);
            let start = number * span_of(o);
            let reached = start + k * o.chunk_size;
            after_chunks(
                described(b),
                bytes::flattened(stored),
                Seq::new(
                    stored.len(),
                    |i: int| index_entry(index_bytes(stored), i),
                ),
                locus,
                b.content.take(start as int),
                k,
            ) == Ok::<Seq<u8>, ErrorView>(
                b.content.take(
                    if reached <= b.content.len() {
                        reached as int
                    } else {
                        b.content.len() as int
                    },
                ),
            )
        }),
    decreases k,
{
    let o = b.options;
    let s = described(b);
    let n = o.chunk_size as nat;
    let data = bevy_slice(b.content, o, number);
    let chunks = chunks_in(data, o);
    let stored = stored_chunks(o.codec, n, chunks);
    let locations = Seq::new(
        stored.len(),
        |i: int| index_entry(index_bytes(stored), i),
    );
    let start = number * span_of(o);
    span_is_positive(o);
    assert((number + 1) * span_of(o) == start + span_of(o)) by (nonlinear_arith)
        requires
            start == number * span_of(o),
    ;
    if k == 0 {
        assert(0 * n == 0) by (nonlinear_arith);
    } else {
        let i = (k - 1) as nat;
        chunks_read_back(b, number, locus, i);
        chunk_at(data, n, i);
        chunk_comes_back(s, chunks, stored, locus, i as int);
        assert(k * n == i * n + n) by (nonlinear_arith)
            requires
                k == i + 1,
        ;
        let before = b.content.take((start + i * n) as int);
        assert(before.len() == start + i * n);
        let chunk = chunks[i as int];
        let full = padded(chunk, n);
        let room = s.size - before.len();
        assert(chunk =~= b.content.subrange(
            (start + i * n) as int,
            (start + i * n + chunk.len()) as int,
        ));
        assert(locations[i as int] == index_entry(index_bytes(stored), i as int));
        assert(at_most(full, room) =~= chunk) by {
            if chunk.len() < n {
                // Only the last bevy can end with a shorter chunk.
                assert(data.len() < span_of(o)) by {
                    if data.len() == span_of(o) {
                        assert(i < o.chunks_per_segment) by (nonlinear_arith)
                            requires
                                i * n < n * o.chunks_per_segment,
                        ;
                        assert((i + 1) * n <= n * o.chunks_per_segment) by (nonlinear_arith)
                            requires
                                i + 1 <= o.chunks_per_segment,
                        ;
                    }
                }
                assert(start + data.len() == b.content.len());
            }
        }
        assert(before + chunk =~= b.content.take((start + i * n + chunk.len()) as int));
    }
}

/// Where a chunk of some bytes stands.
pub(crate) proof fn chunk_at(data: Seq<u8>, n: nat, i: nat)
    requires
        n > 0,
        i < cut(data, n).len(),
    ensures
        i * n < data.len(),
        cut(data, n)[i as int] == (if (i + 1) * n <= data.len() {
            data.subrange((i * n) as int, ((i + 1) * n) as int)
        } else {
            data.subrange((i * n) as int, data.len() as int)
        }),
        (i + 1) * n == i * n + n,
{
    let whole = data.len() / n;
    assert(whole * n <= data.len() < (whole + 1) * n) by (nonlinear_arith)
        requires
            whole == data.len() / n,
            n > 0,
    ;
    assert(data.len() % n == data.len() - whole * n) by (nonlinear_arith)
        requires
            whole == data.len() / n,
            n > 0,
    ;
    assert(i <= whole);
    assert(i * n <= whole * n) by (nonlinear_arith)
        requires
            i <= whole,
    ;
    assert((i + 1) * n == i * n + n) by (nonlinear_arith);
    cut_step(data, n, i);
}

/// What a stream delivers after `k` of its bevies.
proof fn bevies_read_back<V: Volume>(b: BuilderView, volume: &V, locus: LocusView, k: nat)
    requires
        holds(volume, b),
        k <= all_bevies(b.content.len(), b.options),
    ensures
        after_bevies(described(b), volume, locus, k) == Ok::<Seq<u8>, ErrorView>(
            b.content.take(
                if k * span_of(b.options) <= b.content.len() {
                    (k * span_of(b.options)) as int
                } else {
                    b.content.len() as int
                },
            ),
        ),
    decreases k,
{
    let o = b.options;
    let span = span_of(o);
    let s = described(b);
    let n = all_bevies(b.content.len(), o);
    span_is_positive(o);
    if k == 0 {
        assert(0 * span == 0) by (nonlinear_arith);
        assert(b.content.take(0) =~= Seq::<u8>::empty());
    } else {
        let i = (k - 1) as nat;
        bevies_read_back(b, volume, locus, i);
        bevy_begins_inside(b.content.len(), o, i);
        assert(k * span == i * span + span) by (nonlinear_arith)
            requires
                k == i + 1,
        ;
        let data = bevy_slice(b.content, o, i);
        let chunks = chunks_in(data, o);
        let stored = stored_chunks(o.codec, o.chunk_size as nat, chunks);
        let name = bevy_member_name(b.base, i);
        bevy_is_served(b, volume, i, n);
        index_bytes_len(stored);
        assert(bevy_decodes(o, data));
        chunk_count(data, o);
        assert(index_bytes(stored).len() / 12 == stored.len());
        let locations = Seq::new(
            stored.len(),
            |j: int| index_entry(index_bytes(stored), j),
        );
        assert(index_bounded(
            index_bytes(stored),
            s.chunks_in_segment as nat,
            locus.segment(name + INDEX_SUFFIX@),
        ) == Ok::<Seq<ChunkLocation>, ErrorView>(locations));
        chunks_read_back(b, i, locus.segment(name), chunks.len());
        let start = i * span;
        let reached = start + chunks.len() * o.chunk_size;
        assert((i + 1) * span == start + span) by (nonlinear_arith)
            requires
                start == i * span,
        ;
        assert(chunks.len() * o.chunk_size <= span) by (nonlinear_arith)
            requires
                chunks.len() <= o.chunks_per_segment,
                span == o.chunk_size * o.chunks_per_segment,
        ;
        assert(after_bevies(s, volume, locus, i) == Ok::<Seq<u8>, ErrorView>(
            b.content.take(start as int),
        ));
        assert(b.content.take(start as int).len() < s.size);
        if k * span <= b.content.len() {
            assert(data.len() == span);
            assert(reached == k * span);
        } else {
            assert(start + data.len() == b.content.len());
            assert(reached >= b.content.len());
        }
    }
}

/// A bevy that is needed begins within the content.
proof fn bevy_begins_inside(len: nat, o: StreamOptions, i: nat)
    requires
        span_of(o) > 0,
        i < all_bevies(len, o),
    ensures
        i * span_of(o) < len,
{
    let span = span_of(o);
    let whole = len / span;
    assert(whole * span + len % span == len) by (nonlinear_arith)
        requires
            whole == len / span,
            span > 0,
    ;
    if i < whole {
        assert(i * span < whole * span) by (nonlinear_arith)
            requires
                i < whole,
                span > 0,
        ;
    } else {
        assert(i == whole);
    }
}

/// How many chunks a bevy has, and how far they reach.
pub(crate) proof fn chunk_count(data: Seq<u8>, o: StreamOptions)
    requires
        options_ok(o),
        0 < data.len() <= span_of(o),
    ensures
        0 < chunks_in(data, o).len() <= o.chunks_per_segment,
        chunks_in(data, o).len() * o.chunk_size >= data.len(),
{
    let n = o.chunk_size as nat;
    let per = o.chunks_per_segment as nat;
    let count = chunks_in(data, o).len();
    let whole = data.len() / n;
    assert(whole * n + data.len() % n == data.len()) by (nonlinear_arith)
        requires
            whole == data.len() / n,
            n > 0,
    ;
    assert(data.len() % n < n) by (nonlinear_arith)
        requires
            n > 0,
    ;
    assert((whole + 1) * n == whole * n + n) by (nonlinear_arith);
    assert(remainder(data, n).len() == data.len() % n);
    if data.len() % n == 0 {
        assert(count == whole);
        assert(whole <= per) by (nonlinear_arith)
            requires
                whole * n <= n * per,
                n > 0,
        ;
        assert(whole > 0) by (nonlinear_arith)
            requires
                whole * n == data.len(),
                data.len() > 0,
        ;
    } else {
        assert(count == whole + 1);
        assert(whole < per) by (nonlinear_arith)
            requires
                whole * n < n * per,
                n > 0,
        ;
    }
}

/// A volume that serves a stream's members serves each of its bevies.
pub(crate) proof fn bevy_is_served<V: Volume>(b: BuilderView, volume: &V, i: nat, n: nat)
    requires
        i < n,
        serves(volume, bevies_between(b.base, b.options, b.content, 0, n)),
    ensures
        ({
            let o = b.options;
            let stored = stored_chunks(
                o.codec,
                o.chunk_size as nat,
                chunks_in(bevy_slice(b.content, o, i), o),
            );
            let name = bevy_member_name(b.base, i);
            &&& volume.outcome(name) == Ok::<Seq<u8>, ErrorView>(bytes::flattened(stored))
            &&& volume.outcome(name + INDEX_SUFFIX@) == Ok::<Seq<u8>, ErrorView>(
                index_bytes(stored),
            )
        }),
    decreases n,
{
    let o = b.options;
    let all = bevies_between(b.base, o, b.content, 0, n);
    let before = bevies_between(b.base, o, b.content, 0, (n - 1) as nat);
    let last = bevy_members(b.base, o, bevy_slice(b.content, o, (n - 1) as nat), (n - 1) as nat);
    assert(all =~= before + last);
    if i == n - 1 {
        assert(all[before.len() as int] == last[0]);
        assert(all[(before.len() + 1) as int] == last[1]);
    } else {
        assert forall|j: int| 0 <= j < before.len() implies volume.outcome(
            (#[trigger] before[j]).name,
        ) == Ok::<Seq<u8>, ErrorView>(before[j].data) by {
            assert(all[j] == before[j]);
        }
        bevy_is_served(b, volume, i, (n - 1) as nat);
    }
}

/// What is written is read back: a volume that serves the members a stream was
/// written to gives its bytes, all of them and in order.
pub proof fn written_stream_reads_back<V: Volume>(b: BuilderView, volume: &V, locus: LocusView)
    requires
        holds(volume, b),
    ensures
        stream_content(described(b), volume, locus) == Ok::<Seq<u8>, ErrorView>(b.content),
{
    let o = b.options;
    let s = described(b);
    let n = all_bevies(b.content.len(), o);
    let span = span_of(o);
    let len = b.content.len();
    span_is_positive(o);
    assert(bevies_of(s) == n && n * span >= len) by {
        let whole = len / span;
        assert(whole * span + len % span == len && len % span < span) by (nonlinear_arith)
            requires
                whole == len / span,
                span > 0,
        ;
        assert((whole + 1) * span == whole * span + span) by (nonlinear_arith);
        if len == 0 {
            assert(whole == 0) by (nonlinear_arith)
                requires
                    whole == len / span,
                    len == 0,
                    span > 0,
            ;
            assert(len % span == 0) by (nonlinear_arith)
                requires
                    len == 0,
                    span > 0,
            ;
        } else if len % span == 0 {
            assert((len - 1) as nat / span == whole - 1) by (nonlinear_arith)
                requires
                    len == whole * span,
                    span > 0,
                    len > 0,
            ;
        } else {
            assert((len - 1) as nat / span == whole) by (nonlinear_arith)
                requires
                    whole * span + len % span == len,
                    0 < len % span < span,
            ;
        }
    }
    bevies_read_back(b, volume, locus.subject(b.arn), n);
    assert(b.content.take(len as int) =~= b.content);
}

} // verus!
