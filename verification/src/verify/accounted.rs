//! What an image's bytes are made of, and what the account of reading them says.

use vstd::prelude::*;

use crate::error::{ErrorView, LocusView};
use crate::verify::container::{
    after_runs, counted, image_content, run_content, runs_have_their_length, streams_ok,
    DescribedKind, ImageView, Part, RunView,
};
use crate::verify::report::ReadAccountingView;
use crate::volume::Volume;

verus! {

/// Whether a run is one of stored bytes.
pub open spec fn is_stored(run: RunView) -> bool {
    run is Stored
}

/// Whether a run stands for something that is not stored.
pub open spec fn stands_for(run: RunView, kind: DescribedKind) -> bool {
    run matches RunView::Described { kind: found, pattern: _, offset: _, length: _ } && found
        == kind
}

/// How many bytes a run has.
pub open spec fn run_bytes_held(run: RunView) -> nat {
    match run {
        RunView::Stored { stream: _, target_offset: _, length } => length as nat,
        RunView::Described { kind: _, pattern: _, offset: _, length } => length as nat,
    }
}

/// The lengths of those of the first `n` runs that some test picks, added up.
pub open spec fn picked_bytes(
    runs: Seq<RunView>,
    pick: spec_fn(RunView) -> bool,
    n: nat,
) -> nat
    decreases n,
{
    if n == 0 {
        0
    } else {
        picked_bytes(runs, pick, (n - 1) as nat) + (if pick(runs[n - 1]) {
            run_bytes_held(runs[n - 1])
        } else {
            0
        })
    }
}

/// Where a run begins: behind all the bytes of those before it.
pub open spec fn run_begins(runs: Seq<RunView>, k: nat) -> nat {
    picked_bytes(runs, |r: RunView| true, k)
}

/// The first runs are as long as their lengths, and the account says of what.
proof fn runs_add_up<V: Volume>(
    image: ImageView,
    parts: Seq<Part<V>>,
    locus: LocusView,
    n: nat,
)
    requires
        streams_ok(image.streams),
        n <= image.runs.len(),
        after_runs(image, parts, locus, n) is Ok,
        after_runs(image, parts, locus, n)->Ok_0.0.len() <= u64::MAX,
    ensures
        ({
            let (data, counts) = after_runs(image, parts, locus, n)->Ok_0;
            let runs = image.runs;
            &&& data.len() == run_begins(runs, n)
            &&& counts.stored == picked_bytes(runs, |r: RunView| is_stored(r), n)
            &&& counts.described == picked_bytes(
                runs,
                |r: RunView| stands_for(r, DescribedKind::Described),
                n,
            )
            &&& counts.unknown_placeholder == picked_bytes(
                runs,
                |r: RunView| stands_for(r, DescribedKind::Unknown),
                n,
            )
            &&& counts.gap_filled == picked_bytes(
                runs,
                |r: RunView| stands_for(r, DescribedKind::Gap),
                n,
            )
            &&& counts.stored + counts.described + counts.unknown_placeholder + counts.gap_filled
                == data.len()
        }),
    decreases n,
{
    if n > 0 {
        let m = (n - 1) as nat;
        let run = image.runs[n - 1];
        runs_have_their_length(run, image.streams, parts, locus);
        runs_add_up(image, parts, locus, m);
    }
}

/// The account of reading an image adds up to its bytes: stored ones, described ones, ones
/// that are not known and ones that no entry covers, each counted by the runs that they
/// come from.
pub proof fn accounts_add_up<V: Volume>(
    image: ImageView,
    parts: Seq<Part<V>>,
    locus: LocusView,
    data: Seq<u8>,
    counts: ReadAccountingView,
)
    requires
        streams_ok(image.streams),
        image_content(image, parts, locus) == Ok::<(Seq<u8>, ReadAccountingView), ErrorView>(
            (data, counts),
        ),
        data.len() <= u64::MAX,
    ensures
        counts.stored + counts.described + counts.unknown_placeholder + counts.gap_filled
            == data.len(),
        counts.total() == data.len(),
        counts.stored == picked_bytes(
            image.runs,
            |r: RunView| is_stored(r),
            image.runs.len(),
        ),
        counts.described == picked_bytes(
            image.runs,
            |r: RunView| stands_for(r, DescribedKind::Described),
            image.runs.len(),
        ),
        counts.unknown_placeholder == picked_bytes(
            image.runs,
            |r: RunView| stands_for(r, DescribedKind::Unknown),
            image.runs.len(),
        ),
        counts.gap_filled == picked_bytes(
            image.runs,
            |r: RunView| stands_for(r, DescribedKind::Gap),
            image.runs.len(),
        ),
{
    runs_add_up(image, parts, locus, image.runs.len());
}

/// The bytes of the first runs are those of the whole image's beginning.
proof fn earlier_runs_come_first<V: Volume>(
    image: ImageView,
    parts: Seq<Part<V>>,
    locus: LocusView,
    k: nat,
    n: nat,
)
    requires
        k <= n <= image.runs.len(),
        after_runs(image, parts, locus, n) is Ok,
    ensures
        after_runs(image, parts, locus, k) is Ok,
        after_runs(image, parts, locus, k)->Ok_0.0.is_prefix_of(
            after_runs(image, parts, locus, n)->Ok_0.0,
        ),
    decreases n,
{
    let all = after_runs(image, parts, locus, n)->Ok_0.0;
    if k < n {
        earlier_runs_come_first(image, parts, locus, k, (n - 1) as nat);
        let most = after_runs(image, parts, locus, (n - 1) as nat)->Ok_0.0;
        let first = after_runs(image, parts, locus, k)->Ok_0.0;
        assert(first =~= all.subrange(0, first.len() as int));
    } else {
        assert(all =~= all.subrange(0, all.len() as int));
    }
}

/// An image's bytes are those of its runs, each behind those before it: where a stretch of
/// it is stored, what its stream has there, and where it is described, its pattern.
pub proof fn runs_stand_in_order<V: Volume>(
    image: ImageView,
    parts: Seq<Part<V>>,
    locus: LocusView,
    data: Seq<u8>,
    counts: ReadAccountingView,
    k: int,
)
    requires
        streams_ok(image.streams),
        image_content(image, parts, locus) == Ok::<(Seq<u8>, ReadAccountingView), ErrorView>(
            (data, counts),
        ),
        data.len() <= u64::MAX,
        0 <= k < image.runs.len(),
    ensures
        ({
            let from = run_begins(image.runs, k as nat) as int;
            let to = from + run_bytes_held(image.runs[k]);
            &&& to <= data.len()
            &&& run_content(image.runs[k], image.streams, parts, locus) == Ok::<
                Seq<u8>,
                ErrorView,
            >(data.subrange(from, to))
            &&& image.runs[k] matches RunView::Described {
                kind: _,
                pattern,
                offset,
                length,
            } ==> (forall|x: int|
                0 <= x < length ==> #[trigger] data[from + x] == pattern[(offset + x)
                    % pattern.len() as int])
        }),
{
    let n = image.runs.len();
    earlier_runs_come_first(image, parts, locus, k as nat, n);
    earlier_runs_come_first(image, parts, locus, (k + 1) as nat, n);
    let before = after_runs(image, parts, locus, k as nat)->Ok_0.0;
    let with = after_runs(image, parts, locus, (k + 1) as nat)->Ok_0.0;
    runs_have_their_length(image.runs[k], image.streams, parts, locus);
    runs_add_up(image, parts, locus, k as nat);
    let more = run_content(image.runs[k], image.streams, parts, locus)->Ok_0;
    let from = before.len() as int;
    let to = from + more.len();
    assert(with == before + more);
    assert(data.subrange(from, to) =~= more) by {
        assert forall|x: int| 0 <= x < more.len() implies data[from + x] == more[x] by {
            assert(with[from + x] == more[x]);
            assert(data[from + x] == with[from + x]);
        }
    }
    assert forall|x: int| 0 <= x < more.len() implies #[trigger] data[from + x] == more[x] by {
        assert(with[from + x] == more[x]);
    }
}

} // verus!
