//! A container read as something to acquire.
//!
//! The one disk image a container stores is read forward, from its first byte to
//! its last. Every file of the container is registered as a source, so that none of
//! them can be written.

use vstd::prelude::*;

use crate::arn::Arn;
use crate::bytes;
use crate::error::{io_failure, malformed, Error, ErrorView, Locus, LocusView};
use crate::model::ObjectRole;
use crate::stream::{Collected, StreamView};
use crate::text;
use crate::verify::container::{
    after_runs, chunk_read, described_bytes, feed_run, home_of, image_content, image_of,
    named_ok, object_views, run_content, run_length, run_views, span_prefix, span_read,
    stream_named, streams_ok, Aff4Object, Container, ImageRun, ImageView, ObjectView, Part,
    RunView,
};
use crate::verify::images::find_image;
use crate::verify::report::NoProgress;
use crate::volume::Volume;
use crate::write::guard::SourceRegistry;

verus! {

/// Whether bytes begin as every container does: with a ZIP local file header.
pub open spec fn begins_as_container(bytes: Seq<u8>) -> bool {
    bytes.len() >= 4 && bytes[0] == 0x50 && bytes[1] == 0x4b && bytes[2] == 0x03 && bytes[3] == 0x04
}

/// Whether a file is a container, by its bytes and by whether it opens as one. Its
/// name is only a claim. A file that cannot be read has no bytes.
pub fn looks_like_aff4(head: &[u8], opens: bool) -> (r: bool)
    ensures
        r == (begins_as_container(head@) && opens),
{
    head.len() >= 4 && head[0] == 0x50 && head[1] == 0x4b && head[2] == 0x03 && head[3] == 0x04
        && opens
}

/// A file of a container, and what came of opening it.
#[derive(Debug)]
pub struct SourcePart {
    /// The path as given.
    pub path: String,
    /// The path in canonical form.
    pub canonical: Result<String, String>,
    /// Why it did not open, if it did not.
    pub fault: Option<Error>,
}

/// A file of a container, as contracts speak of it.
#[verifier::ext_equal]
pub struct SourcePartView {
    /// The path as given.
    pub path: Seq<char>,
    /// The path in canonical form.
    pub canonical: Result<Seq<char>, Seq<char>>,
    /// Why it did not open, if it did not.
    pub fault: Option<ErrorView>,
}

impl View for SourcePart {
    type V = SourcePartView;

    open spec fn view(&self) -> SourcePartView {
        SourcePartView {
            path: self.path@,
            canonical: match self.canonical {
                Ok(c) => Ok(c@),
                Err(e) => Err(e@),
            },
            fault: match self.fault {
                Some(e) => Some(e@),
                None => None,
            },
        }
    }
}

/// The views of a container's files.
pub open spec fn source_views(list: Seq<SourcePart>) -> Seq<SourcePartView> {
    list.map_values(|p: SourcePart| p@)
}

/// The sources once a container's files have been registered, each before it is
/// opened, up to the first fault, and that fault.
pub open spec fn enlisted(sources: Set<Seq<char>>, parts: Seq<SourcePartView>) -> (
    Set<Seq<char>>,
    Option<ErrorView>,
)
    decreases parts.len(),
{
    if parts.len() == 0 {
        (sources, None)
    } else {
        let (before, fault) = enlisted(sources, parts.drop_last());
        match fault {
            Some(e) => (before, Some(e)),
            None => match parts.last().canonical {
                Err(e) => (before, Some(io_failure(LocusView::file(parts.last().path), e))),
                Ok(c) => (before.insert(c), parts.last().fault),
            },
        }
    }
}

/// The names of the disk images among objects.
pub open spec fn disk_images(objects: Seq<ObjectView>) -> Seq<Seq<char>>
    decreases objects.len(),
{
    if objects.len() == 0 {
        Seq::empty()
    } else {
        let before = disk_images(objects.drop_last());
        if objects.last().role == ObjectRole::DiskImage {
            before.push(objects.last().arn)
        } else {
            before
        }
    }
}

/// What is said of a container without a disk image.
pub open spec fn no_image_text() -> Seq<char> {
    "the container stores no aff4:DiskImage, so there is no disk image to re-acquire; a logical container (AFF4-L) is not a source for --image"@
}

/// What is said of a container with several disk images.
pub open spec fn many_images_text(names: Seq<Seq<char>>) -> Seq<char> {
    "the container stores "@ + text::decimal(names.len()) + " disk images ("@ + text::joined(
        names,
        ", "@,
    ) + "), and re-acquiring without saying which would silently pick one"@
}

/// The only disk image among objects, or why there is none to take.
pub open spec fn only_image(objects: Seq<ObjectView>, locus: LocusView) -> Result<
    Seq<char>,
    ErrorView,
> {
    let names = disk_images(objects);
    if names.len() == 1 {
        Ok(names[0])
    } else if names.len() == 0 {
        Err(malformed(locus, no_image_text()))
    } else {
        Err(malformed(locus, many_images_text(names)))
    }
}

/// The run that a byte of an image lies in, and how far into it.
pub open spec fn run_at(runs: Seq<RunView>, position: nat) -> Option<(RunView, nat)>
    decreases runs.len(),
{
    if runs.len() == 0 {
        None
    } else if position < run_length(runs[0]) {
        Some((runs[0], position))
    } else {
        run_at(runs.skip(1), (position - run_length(runs[0])) as nat)
    }
}

/// A part of a run, `n` bytes of it from `from` on, where it has an address.
pub open spec fn run_part(run: RunView, from: nat, n: nat) -> Option<RunView> {
    match run {
        RunView::Stored { stream, target_offset, length: _ } => if target_offset + from
            > u64::MAX {
            None
        } else {
            Some(
                RunView::Stored {
                    stream,
                    target_offset: (target_offset + from) as u64,
                    length: n as u64,
                },
            )
        },
        RunView::Described { kind, pattern, offset, length: _ } => if offset + from > u64::MAX {
            None
        } else {
            Some(
                RunView::Described {
                    kind,
                    pattern,
                    offset: (offset + from) as u64,
                    length: n as u64,
                },
            )
        },
    }
}

/// What is said of a byte of an image that has no address.
pub open spec fn unaddressed_text(position: nat) -> Seq<char> {
    "byte "@ + text::decimal(position) + " of the image lies beyond the last address"@
}

/// What one read of an image gives at a position: at most `len` bytes, as far as
/// one run of the image reaches, and none behind the last run.
pub open spec fn image_read<V: Volume>(
    image: ImageView,
    parts: Seq<Part<V>>,
    position: nat,
    len: nat,
    locus: LocusView,
) -> Result<Seq<u8>, ErrorView> {
    match run_at(image.runs, position) {
        None => Ok(Seq::empty()),
        Some((run, within)) => {
            let left = (run_length(run) - within) as nat;
            let n = if len < left {
                len
            } else {
                left
            };
            if n == 0 {
                Ok(Seq::empty())
            } else {
                match run_part(run, within, n) {
                    None => Err(malformed(locus, unaddressed_text(position))),
                    Some(part) => run_content(part, image.streams, parts, locus),
                }
            }
        },
    }
}

/// Whether no chunk of a stream has more bytes than chunks of it have.
pub open spec fn chunks_fit<V: Volume>(s: StreamView, volume: &V, place: LocusView) -> bool {
    forall|chunk: nat|
        (#[trigger] chunk_read(s, volume, chunk, place)) matches Ok(plain) ==> plain.len()
            <= s.chunk_size
}

/// The bytes of a stream from a place on are the last of all from before it.
proof fn span_suffix<V: Volume>(
    s: StreamView,
    volume: &V,
    a: nat,
    b: nat,
    d: nat,
    place: LocusView,
)
    requires
        a <= b <= d,
        s.chunk_size > 0,
        chunks_fit(s, volume, place),
        span_read(s, volume, a, d, place) is Ok,
    ensures
        span_read(s, volume, b, d, place) == Ok::<Seq<u8>, ErrorView>(
            span_read(s, volume, a, d, place)->Ok_0.skip(b - a),
        ),
    decreases d - a,
{
    let x = span_read(s, volume, a, d, place)->Ok_0;
    span_prefix(s, volume, a, d, d, place);
    if a == b {
        assert(x.skip(0) =~= x);
    } else {
        let size = s.chunk_size as nat;
        let within = a % size;
        let plain = chunk_read(s, volume, a / size, place)->Ok_0;
        assert(plain.len() <= size);
        let t = if plain.len() - within < d - a {
            (plain.len() - within) as nat
        } else {
            (d - a) as nat
        };
        let rest = span_read(s, volume, a + t, d, place)->Ok_0;
        let head = plain.subrange(within as int, within + t as int);
        if a + t <= b {
            span_suffix(s, volume, a + t, b, d, place);
            assert((head + rest).skip(b - a) =~= rest.skip(b - a - t));
        } else {
            let k = (b - a) as nat;
            assert(b / size == a / size && b % size == within + k) by (nonlinear_arith)
                requires
                    size > 0,
                    within == a % size,
                    b == a + k,
                    within + k < size,
            ;
            let u = (t - k) as nat;
            assert(plain.subrange((within + k) as int, within + k + u as int) + rest =~= (head
                + rest).skip(k as int));
            assert(b + u == a + t);
        }
    }
}

/// A part of a run holds that part of the run's bytes.
proof fn parts_of_runs<V: Volume>(
    run: RunView,
    from: nat,
    n: nat,
    streams: Seq<StreamView>,
    parts: Seq<Part<V>>,
    locus: LocusView,
)
    requires
        streams_ok(streams),
        from + n <= run_length(run),
        run_content(run, streams, parts, locus) is Ok,
        run_part(run, from, n) is Some,
        run_fits(run, streams, parts, locus),
    ensures
        run_content(run, streams, parts, locus)->Ok_0.len() == run_length(run),
        run_content(run_part(run, from, n)->0, streams, parts, locus) == Ok::<Seq<u8>, ErrorView>(
            run_content(run, streams, parts, locus)->Ok_0.subrange(from as int, from + n as int),
        ),
{
    let whole = run_content(run, streams, parts, locus)->Ok_0;
    match run {
        RunView::Stored { stream, target_offset, length } => {
            let s = stream_named(streams, stream)->0;
            named_ok(streams, stream);
            let volume = &parts[home_of(parts, stream)].volume;
            let place = locus.subject(s.arn);
            let a = target_offset as nat;
            let d = (target_offset + length) as nat;
            span_prefix(s, volume, a, d, d, place);
            span_suffix(s, volume, a, a + from, d, place);
            span_prefix(s, volume, a + from, a + from + n, d, place);
            assert(whole.skip(from as int).take(n as int) =~= whole.subrange(
                from as int,
                from + n as int,
            ));
        },
        RunView::Described { kind: _, pattern, offset, length } => {
            assert(described_bytes(pattern, (offset + from) as nat, n) =~= whole.subrange(
                from as int,
                from + n as int,
            ));
        },
    }
}

/// Whether the chunks that a run draws on have no more bytes than they should.
pub open spec fn run_fits<V: Volume>(
    run: RunView,
    streams: Seq<StreamView>,
    parts: Seq<Part<V>>,
    locus: LocusView,
) -> bool {
    match run {
        RunView::Stored { stream, target_offset: _, length: _ } => match stream_named(
            streams,
            stream,
        ) {
            Some(s) => chunks_fit(
                s,
                &parts[home_of(parts, stream)].volume,
                locus.subject(s.arn),
            ),
            None => true,
        },
        _ => true,
    }
}

/// Whether a run ends before the last address does.
pub open spec fn run_addressed(run: RunView) -> bool {
    match run {
        RunView::Stored { stream: _, target_offset, length } => target_offset + length <= u64::MAX,
        RunView::Described { kind: _, pattern: _, offset, length } => offset + length <= u64::MAX,
    }
}

/// Reading the runs of an image from one on gives what the whole image has there.
proof fn reads_within<V: Volume>(
    image: ImageView,
    parts: Seq<Part<V>>,
    locus: LocusView,
    i: nat,
    position: nat,
)
    requires
        i <= image.runs.len(),
        streams_ok(image.streams),
        image_content(image, parts, locus) is Ok,
        forall|k: int|
            0 <= k < image.runs.len() ==> run_fits(
                #[trigger] image.runs[k],
                image.streams,
                parts,
                locus,
            ) && run_addressed(image.runs[k]),
    ensures
        after_runs(image, parts, locus, i) is Ok,
        ({
            let data = image_content(image, parts, locus)->Ok_0.0;
            let start = after_runs(image, parts, locus, i)->Ok_0.0.len();
            &&& start <= data.len()
            &&& match run_at(image.runs.skip(i as int), position) {
                None => start + position >= data.len(),
                Some((run, within)) => {
                    &&& within < run_length(run)
                    &&& run_content(run, image.streams, parts, locus) is Ok
                    &&& run_content(run, image.streams, parts, locus)->Ok_0.len() == run_length(run)
                    &&& run_fits(run, image.streams, parts, locus)
                    &&& run_addressed(run)
                    &&& start + position - within + run_length(run) <= data.len()
                    &&& start + position >= within
                    &&& run_content(run, image.streams, parts, locus)->Ok_0 == data.subrange(
                        start + position - within,
                        start + position - within + run_length(run),
                    )
                },
            }
        }),
    decreases image.runs.len() - i,
{
    let data = image_content(image, parts, locus)->Ok_0.0;
    if i == image.runs.len() {
        assert(image.runs.skip(i as int).len() == 0);
    } else {
        let run = image.runs[i as int];
        let rest = image.runs.skip(i as int);
        assert(rest[0] == run);
        assert(rest.skip(1) =~= image.runs.skip(i as int + 1));
        let next = if position < run_length(run) {
            0
        } else {
            (position - run_length(run)) as nat
        };
        reads_within(image, parts, locus, i + 1, next);
        let before = after_runs(image, parts, locus, i)->Ok_0.0;
        let content = run_content(run, image.streams, parts, locus)->Ok_0;
        assert(after_runs(image, parts, locus, i + 1)->Ok_0.0 == before + content);
        parts_of_runs(run, 0, run_length(run) as nat, image.streams, parts, locus);
        after_is_prefix(image, parts, locus, i + 1, image.runs.len());
        assert(content =~= data.subrange(before.len() as int, (before + content).len() as int)) by {
            assert((before + content).subrange(
                before.len() as int,
                (before + content).len() as int,
            ) =~= content);
        }
    }
}

/// What the first runs hold is the beginning of what more of them hold.
proof fn after_is_prefix<V: Volume>(
    image: ImageView,
    parts: Seq<Part<V>>,
    locus: LocusView,
    m: nat,
    n: nat,
)
    requires
        m <= n,
        after_runs(image, parts, locus, n) is Ok,
    ensures
        after_runs(image, parts, locus, m) is Ok,
        ({
            let a = after_runs(image, parts, locus, m)->Ok_0.0;
            let b = after_runs(image, parts, locus, n)->Ok_0.0;
            a.len() <= b.len() && a == b.take(a.len() as int)
        }),
    decreases n,
{
    if m < n {
        after_is_prefix(image, parts, locus, m, (n - 1) as nat);
        let a = after_runs(image, parts, locus, m)->Ok_0.0;
        let b = after_runs(image, parts, locus, (n - 1) as nat)->Ok_0.0;
        let c = after_runs(image, parts, locus, n)->Ok_0.0;
        assert(c.take(a.len() as int) =~= b.take(a.len() as int));
    } else {
        let a = after_runs(image, parts, locus, m)->Ok_0.0;
        assert(a.take(a.len() as int) =~= a);
    }
}

/// Reading an image piece by piece gives the bytes that it has: at every position
/// the bytes that the whole image has there, at least one of them up to its end and
/// none behind it. The image is one that can be read, none of whose chunks has more
/// bytes than it should.
pub proof fn pieces_are_the_image<V: Volume>(
    image: ImageView,
    parts: Seq<Part<V>>,
    locus: LocusView,
    position: nat,
    len: nat,
)
    requires
        len > 0,
        streams_ok(image.streams),
        image_content(image, parts, locus) is Ok,
        forall|k: int|
            0 <= k < image.runs.len() ==> run_fits(
                #[trigger] image.runs[k],
                image.streams,
                parts,
                locus,
            ) && run_addressed(image.runs[k]),
    ensures
        ({
            let data = image_content(image, parts, locus)->Ok_0.0;
            match image_read(image, parts, position, len, locus) {
                Err(_) => false,
                Ok(got) => {
                    &&& got.len() <= len
                    &&& got.len() > 0 <==> position < data.len()
                    &&& position < data.len() ==> position + got.len() <= data.len() && got
                        == data.subrange(position as int, position as int + got.len())
                },
            }
        }),
{
    let data = image_content(image, parts, locus)->Ok_0.0;
    reads_within(image, parts, locus, 0, position);
    assert(image.runs.skip(0) =~= image.runs);
    match run_at(image.runs, position) {
        None => {},
        Some((run, within)) => {
            let left = (run_length(run) - within) as nat;
            let n = if len < left {
                len
            } else {
                left
            };
            parts_of_runs(run, within, n, image.streams, parts, locus);
            let whole = run_content(run, image.streams, parts, locus)->Ok_0;
            assert(whole.subrange(within as int, within + n as int) =~= data.subrange(
                position as int,
                position + n as int,
            ));
        },
    }
}

/// A container opened as a source: the container, its disk image and its files.
pub struct Aff4Source<V: Volume> {
    container: Container<V>,
    arn: Arn,
    parts: Vec<String>,
}

/// What opening a container as a source gives: the image to read, or why there is
/// none.
pub open spec fn source_image<V: Volume>(
    container: Result<Container<V>, Error>,
    locus: LocusView,
) -> Result<(Seq<char>, ImageView), ErrorView> {
    match container {
        Err(e) => Err(e@),
        Ok(c) => match only_image(object_views(c.objects@), locus) {
            Err(e) => Err(e),
            Ok(arn) => match image_of(c.images@, arn, locus) {
                Err(e) => Err(e),
                Ok(image) => Ok((arn, image)),
            },
        },
    }
}

/// The names of the disk images among objects, and the last of them.
fn find_disk_images(objects: &Vec<Aff4Object>) -> (r: (Vec<String>, Option<Arn>))
    ensures
        text::texts(r.0@) == disk_images(object_views(objects@)),
        (match r.1 {
            Some(arn) => r.0@.len() > 0 && arn@ == disk_images(object_views(objects@)).last(),
            None => r.0@.len() == 0,
        }),
{
    let mut names: Vec<String> = Vec::new();
    let mut last: Option<Arn> = None;
    let ghost all = object_views(objects@);
    let mut i: usize = 0;
    proof {
        assert(text::texts(names@) =~= disk_images(all.take(0)));
    }
    while i < objects.len()
        invariant
            i <= objects@.len(),
            all == object_views(objects@),
            text::texts(names@) == disk_images(all.take(i as int)),
            (match last {
                Some(arn) => names@.len() > 0 && arn@ == disk_images(all.take(i as int)).last(),
                None => names@.len() == 0,
            }),
        decreases objects@.len() - i,
    {
        proof {
            assert(all.take(i + 1).drop_last() =~= all.take(i as int));
            assert(all.take(i + 1).last() == objects@[i as int]@);
        }
        if objects[i].role == ObjectRole::DiskImage {
            let ghost before = text::texts(names@);
            names.push(text::owned(objects[i].arn.as_str()));
            last = Some(objects[i].arn.clone());
            proof {
                assert(text::texts(names@) =~= before.push(objects@[i as int]@.arn));
            }
        }
        i = i + 1;
    }
    proof {
        assert(all.take(i as int) =~= all);
    }
    (names, last)
}

/// Once a file has a fault, nothing more is registered.
proof fn enlisting_stops(sources: Set<Seq<char>>, parts: Seq<SourcePartView>, n: int)
    requires
        0 <= n <= parts.len(),
        enlisted(sources, parts.take(n)).1 is Some,
    ensures
        enlisted(sources, parts) == enlisted(sources, parts.take(n)),
    decreases parts.len() - n,
{
    if n == parts.len() {
        assert(parts.take(n) =~= parts);
    } else {
        assert(parts.take(n + 1).drop_last() =~= parts.take(n));
        enlisting_stops(sources, parts, n + 1);
    }
}

/// Register a container's files, each before it counts as opened.
fn enlist(parts: &[SourcePart], registry: &mut SourceRegistry) -> (r: Result<Vec<String>, Error>)
    ensures
        final(registry)@ == enlisted(old(registry)@, source_views(parts@)).0,
        (match r {
            Ok(paths) => enlisted(old(registry)@, source_views(parts@)).1 is None && text::texts(
                paths@,
            ) == source_views(parts@).map_values(|p: SourcePartView| p.path),
            Err(e) => enlisted(old(registry)@, source_views(parts@)).1 == Some(e@),
        }),
{
    let ghost all = source_views(parts@);
    let ghost before = registry@;
    let ghost path_of = |p: SourcePartView| p.path;
    let mut paths: Vec<String> = Vec::new();
    let mut i: usize = 0;
    proof {
        assert(text::texts(paths@) =~= all.take(0).map_values(path_of));
    }
    while i < parts.len()
        invariant
            i <= parts@.len(),
            all == source_views(parts@),
            before == old(registry)@,
            path_of == (|p: SourcePartView| p.path),
            enlisted(before, all.take(i as int)) == (registry@, None::<ErrorView>),
            text::texts(paths@) == all.take(i as int).map_values(path_of),
        decreases parts@.len() - i,
    {
        let part = &parts[i];
        proof {
            assert(all.take(i + 1).drop_last() =~= all.take(i as int));
            assert(all.take(i + 1).last() == part@);
            if enlisted(before, all.take(i + 1)).1 is Some {
                enlisting_stops(before, all, i + 1);
            }
        }
        match &part.canonical {
            Err(e) => {
                return Err(Error::io(Locus::new(part.path.as_str()), text::owned(e.as_str())));
            },
            Ok(c) => {
                registry.register(c.as_str());
            },
        }
        match &part.fault {
            Some(e) => {
                return Err(e.clone());
            },
            None => {},
        }
        let ghost earlier = text::texts(paths@);
        paths.push(text::owned(part.path.as_str()));
        proof {
            assert(text::texts(paths@) =~= earlier.push(part@.path));
            assert(all.take(i + 1).map_values(path_of) =~= all.take(i as int).map_values(
                path_of,
            ).push(part@.path));
        }
        i = i + 1;
    }
    proof {
        assert(all.take(i as int) =~= all);
    }
    Ok(paths)
}

impl<V: Volume> Aff4Source<V> {
    /// Where the source is, for messages.
    pub closed spec fn locus(&self) -> LocusView {
        LocusView::file(
            if self.parts@.len() > 0 {
                self.parts@[0]@
            } else {
                "<aff4>"@
            },
        )
    }

    /// The files that the source spans.
    pub closed spec fn files(&self) -> Seq<Seq<char>> {
        text::texts(self.parts@)
    }

    /// The volumes that the image is read from.
    pub closed spec fn volumes(&self) -> Seq<Part<V>> {
        self.container.parts@
    }

    /// The image's name.
    pub closed spec fn name(&self) -> Seq<char> {
        self.arn@
    }

    /// The image.
    pub closed spec fn image(&self) -> ImageView {
        image_of(self.container.images@, self.arn@, self.locus())->Ok_0
    }

    /// Whether the image was resolved and can be read.
    pub closed spec fn wf(&self) -> bool {
        self.container.wf() && image_of(self.container.images@, self.arn@, self.locus()) is Ok
    }

    /// Open a container as a source, the file itself first and then any others of
    /// its set. Every file is registered. The container has to store exactly one
    /// disk image, and that has to resolve.
    pub fn open(
        parts: &[SourcePart],
        container: Result<Container<V>, Error>,
        registry: &mut SourceRegistry,
    ) -> (r: Result<Self, Error>)
        requires
            parts@.len() > 0,
            container matches Ok(c) ==> c.wf(),
        ensures
            final(registry)@ == enlisted(old(registry)@, source_views(parts@)).0,
            ({
                let fault = enlisted(old(registry)@, source_views(parts@)).1;
                let found = source_image(container, LocusView::file(parts@[0].path@));
                match r {
                    Ok(source) => {
                        &&& fault is None
                        &&& found == Ok::<(Seq<char>, ImageView), ErrorView>(
                            (source.name(), source.image()),
                        )
                        &&& source.wf()
                        &&& source.volumes() == container->Ok_0.parts@
                        &&& source.files() == source_views(parts@).map_values(
                            |p: SourcePartView| p.path,
                        )
                        &&& source.locus() == LocusView::file(parts@[0].path@)
                    },
                    Err(e) => match fault {
                        Some(f) => e@ == f,
                        None => found == Err::<(Seq<char>, ImageView), ErrorView>(e@),
                    },
                }
            }),
    {
        let paths = match enlist(parts, registry) {
            Ok(p) => p,
            Err(e) => return Err(e),
        };
        proof {
            assert(text::texts(paths@)[0] == parts@[0].path@);
            assert(text::texts(paths@).len() == parts@.len());
        }
        let container = match container {
            Ok(c) => c,
            Err(e) => return Err(e),
        };
        let locus = Locus::new(parts[0].path.as_str());
        let (names, last) = find_disk_images(&container.objects);
        let n: usize = names.len();
        proof {
            assert(disk_images(object_views(container.objects@)).len() == n);
        }
        let arn = match last {
            Some(arn) => arn,
            None => {
                return Err(
                    Error::malformed(
                        locus,
                        text::owned(
                            "the container stores no aff4:DiskImage, so there is no disk image to re-acquire; a logical container (AFF4-L) is not a source for --image",
                        ),
                    ),
                );
            },
        };
        if n > 1 {
            let count = text::dec_usize(n);
            let list = text::join(&names, ", ");
            return Err(
                Error::malformed(
                    locus,
                    text::cat5(
                        "the container stores ",
                        count.as_str(),
                        " disk images (",
                        list.as_str(),
                        "), and re-acquiring without saying which would silently pick one",
                    ),
                ),
            );
        }
        match find_image(&container.images, &arn, &locus) {
            Ok(_) => {},
            Err(e) => return Err(e),
        }
        Ok(Aff4Source { container, arn, parts: paths })
    }

    /// How many bytes the image has.
    pub fn total_size(&self) -> (r: u64)
        requires
            self.wf(),
        ensures
            r == self.image().size,
    {
        let locus = self.place();
        match find_image(&self.container.images, &self.arn, &locus) {
            Ok(image) => image.size,
            Err(_) => 0,
        }
    }

    /// The files that the source spans, in the order they were opened.
    pub fn parts(&self) -> (r: &Vec<String>)
        ensures
            text::texts(r@) == self.files(),
    {
        &self.parts
    }

    /// The image's name.
    pub fn arn(&self) -> (r: &Arn)
        ensures
            r@ == self.name(),
    {
        &self.arn
    }

    /// Where the source is, for messages.
    fn place(&self) -> (r: Locus)
        ensures
            r@ == self.locus(),
    {
        if self.parts.len() > 0 {
            Locus::new(self.parts[0].as_str())
        } else {
            Locus::new("<aff4>")
        }
    }

    /// A reading of the image, from its first byte.
    pub fn reader<'a>(&'a self) -> (r: Aff4ImageReader<'a, V>)
        requires
            self.wf(),
        ensures
            r.source() == self,
            r.at() == 0,
    {
        Aff4ImageReader { source: self, position: 0 }
    }
}

/// A forward reading of an image.
pub struct Aff4ImageReader<'a, V: Volume> {
    source: &'a Aff4Source<V>,
    position: u64,
}

/// Part of a run.
fn cut(run: &ImageRun, from: u64, n: u64) -> (r: Option<ImageRun>)
    ensures
        (match r {
            Some(part) => run_part(run@, from as nat, n as nat) == Some(part@),
            None => run_part(run@, from as nat, n as nat) is None,
        }),
{
    match run {
        ImageRun::Stored { stream, target_offset, length: _ } => match target_offset.checked_add(
            from,
        ) {
            Some(start) => Some(
                ImageRun::Stored { stream: stream.clone(), target_offset: start, length: n },
            ),
            None => None,
        },
        ImageRun::Described { kind, pattern, offset, length: _ } => match offset.checked_add(from) {
            Some(start) => Some(
                ImageRun::Described {
                    kind: *kind,
                    pattern: bytes::copied(pattern.as_slice()),
                    offset: start,
                    length: n,
                },
            ),
            None => None,
        },
    }
}

/// The run that a byte lies in, and how far into it.
fn find_run(runs: &Vec<ImageRun>, position: u64) -> (r: Option<(usize, u64)>)
    ensures
        (match r {
            Some((i, within)) => i < runs@.len() && run_at(run_views(runs@), position as nat)
                == Some((runs@[i as int]@, within as nat)) && within < run_length(runs@[i as int]@),
            None => run_at(run_views(runs@), position as nat) is None,
        }),
{
    let ghost all = run_views(runs@);
    let mut left: u64 = position;
    let mut i: usize = 0;
    proof {
        assert(all.skip(0) =~= all);
    }
    while i < runs.len()
        invariant
            i <= runs@.len(),
            all == run_views(runs@),
            run_at(all, position as nat) == run_at(all.skip(i as int), left as nat),
        decreases runs@.len() - i,
    {
        proof {
            assert(all.skip(i as int)[0] == runs@[i as int]@);
            assert(all.skip(i as int).skip(1) =~= all.skip(i + 1));
        }
        let length: u64 = match &runs[i] {
            ImageRun::Stored { stream: _, target_offset: _, length } => *length,
            ImageRun::Described { kind: _, pattern: _, offset: _, length } => *length,
        };
        if left < length {
            return Some((i, left));
        }
        left = left - length;
        i = i + 1;
    }
    None
}

impl<'a, V: Volume> Aff4ImageReader<'a, V> {
    /// What is read.
    pub closed spec fn source(&self) -> &'a Aff4Source<V> {
        self.source
    }

    /// How far it has been read.
    pub closed spec fn at(&self) -> u64 {
        self.position
    }

    /// At most `len` more bytes of the image, none at its end.
    pub fn read(&mut self, len: usize) -> (r: Result<Vec<u8>, Error>)
        requires
            old(self).source().wf(),
        ensures
            final(self).source() == old(self).source(),
            ({
                let source = old(self).source();
                let got = image_read(
                    source.image(),
                    source.volumes(),
                    old(self).at() as nat,
                    len as nat,
                    source.locus(),
                );
                match r {
                    Ok(data) => got == Ok::<Seq<u8>, ErrorView>(data@) && final(self).at()
                        == old(self).at().saturating_add(data@.len() as u64),
                    Err(e) => got == Err::<Seq<u8>, ErrorView>(e@) && final(self).at()
                        == old(self).at(),
                }
            }),
    {
        let locus = self.source.place();
        let image = match find_image(&self.source.container.images, &self.source.arn, &locus) {
            Ok(image) => image,
            Err(e) => return Err(e),
        };
        let mut data: Vec<u8> = Vec::new();
        match find_run(&image.runs, self.position) {
            None => {
                proof {
                    assert(data@ =~= Seq::<u8>::empty());
                }
            },
            Some((i, within)) => {
                let left: u64 = match &image.runs[i] {
                    ImageRun::Stored { stream: _, target_offset: _, length } => *length - within,
                    ImageRun::Described { kind: _, pattern: _, offset: _, length } => *length
                        - within,
                };
                let n: u64 = if (len as u64) < left {
                    len as u64
                } else {
                    left
                };
                if n > 0 {
                    let part = match cut(&image.runs[i], within, n) {
                        Some(p) => p,
                        None => {
                            let at = text::dec(self.position);
                            return Err(
                                Error::malformed(
                                    locus,
                                    text::cat3(
                                        "byte ",
                                        at.as_str(),
                                        " of the image lies beyond the last address",
                                    ),
                                ),
                            );
                        },
                    };
                    let mut progress = NoProgress::new();
                    let mut sink = Collected::new();
                    let mut delivered: u64 = 0;
                    match feed_run(
                        &part,
                        &image.streams,
                        &self.source.container.parts,
                        &mut sink,
                        &self.source.arn,
                        &mut delivered,
                        image.size,
                        &mut progress,
                        &locus,
                    ) {
                        Ok(()) => {},
                        Err(e) => return Err(e),
                    }
                    proof {
                        assert(Seq::<u8>::empty() + sink.data@ =~= sink.data@);
                    }
                    data = sink.data;
                }
            },
        }
        let got: usize = data.len();
        self.position = self.position.saturating_add(got as u64);
        Ok(data)
    }
}

} // verus!
