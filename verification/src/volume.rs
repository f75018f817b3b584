//! Where a container's members are read from.

use vstd::prelude::*;

use crate::arn::Arn;
use crate::bytes;
use crate::error::{malformed, Error, ErrorView, Locus, LocusView};
use crate::text;

verus! {

/// A store of named segments.
///
/// The functions that say what it holds are for contracts alone: an implementation
/// that nothing verifies leaves them as they are.
pub trait Volume: Sized {
    /// The volume's own resource name.
    open spec fn name(&self) -> Seq<char> {
        arbitrary()
    }

    /// What reading a segment yields.
    open spec fn outcome(&self, segment: Seq<char>) -> Result<Seq<u8>, ErrorView> {
        arbitrary()
    }

    /// What reading part of a segment yields: nothing where the store cannot address a
    /// segment's interior.
    open spec fn part(&self, segment: Seq<char>, offset: u64, length: usize) -> Result<
        Option<Seq<u8>>,
        ErrorView,
    > {
        arbitrary()
    }

    /// Whether the volume lists a segment.
    open spec fn lists(&self, segment: Seq<char>) -> bool {
        arbitrary()
    }

    /// Every segment the volume lists, each once, in the volume's own order.
    open spec fn listing(&self) -> Seq<Seq<char>> {
        arbitrary()
    }

    /// The length of a segment before storage, where the directory gives it.
    open spec fn plain_length(&self, segment: Seq<char>) -> Option<u64> {
        arbitrary()
    }

    /// The bytes that a segment occupies, zero for one not listed.
    open spec fn stored_length(&self, segment: Seq<char>) -> u64 {
        arbitrary()
    }

    /// The volume's own resource name.
    fn arn(&self) -> (r: Arn)
        ensures
            r@ == self.name(),
    ;

    /// Read a whole segment.
    fn read_segment(&self, segment: &str) -> (r: Result<Vec<u8>, Error>)
        ensures
            (match r {
                Ok(data) => self.outcome(segment@) == Ok::<Seq<u8>, ErrorView>(data@),
                Err(e) => self.outcome(segment@) == Err::<Seq<u8>, ErrorView>(e@),
            }),
    ;

    /// Read part of a segment, where the store can address a segment's interior.
    ///
    /// It fails only where the whole segment cannot be read or ends before the
    /// part does. A segment that can be read fits in memory.
    fn read_segment_range(&self, segment: &str, offset: u64, length: usize) -> (r: Result<
        Option<Vec<u8>>,
        Error,
    >)
        ensures
            (match r {
                Ok(Some(data)) => self.part(segment@, offset, length) == Ok::<
                    Option<Seq<u8>>,
                    ErrorView,
                >(Some(data@)),
                Ok(None) => self.part(segment@, offset, length) == Ok::<
                    Option<Seq<u8>>,
                    ErrorView,
                >(None),
                Err(e) => self.part(segment@, offset, length) == Err::<
                    Option<Seq<u8>>,
                    ErrorView,
                >(e@),
            }),
            (match r {
                Ok(Some(data)) => self.outcome(segment@) matches Ok(whole) && offset + length
                    <= whole.len() <= usize::MAX && data@ == whole.subrange(
                    offset as int,
                    offset + length,
                ),
                Ok(None) => true,
                Err(_) => self.outcome(segment@) matches Ok(whole) ==> offset + length > whole.len(),
            }),
    ;

    /// Whether the volume lists a segment. One it does not list cannot be read.
    fn has_segment(&self, segment: &str) -> (r: bool)
        ensures
            r == self.lists(segment@),
            !r ==> self.outcome(segment@) is Err,
            r <==> self.listing().contains(segment@),
    ;

    /// Every segment the volume lists, in the volume's own order.
    fn segments(&self) -> (r: Vec<String>)
        ensures
            text::texts(r@) == self.listing(),
    ;

    /// The length of a segment before storage, where the directory gives it.
    fn uncompressed_bytes(&self, segment: &str) -> (r: Option<u64>)
        ensures
            r == self.plain_length(segment@),
    ;

    /// The bytes that a segment occupies, zero for one not listed.
    fn stored_bytes(&self, segment: &str) -> (r: u64)
        ensures
            r == self.stored_length(segment@),
    ;
}

/// A volume held in memory.
pub struct MemoryVolume {
    arn: Arn,
    path: String,
    names: Vec<String>,
    data: Vec<Vec<u8>>,
}

/// The position of the first occurrence of `name`, or the length of the list.
pub open spec fn position_of(names: Seq<Seq<char>>, name: Seq<char>) -> nat
    decreases names.len(),
{
    if names.len() == 0 {
        0
    } else if names[0] == name {
        0
    } else {
        1 + position_of(names.skip(1), name)
    }
}

/// A name is found at its position, and nowhere before it.
pub proof fn position_facts(names: Seq<Seq<char>>, name: Seq<char>)
    ensures
        position_of(names, name) <= names.len(),
        position_of(names, name) < names.len() ==> names[position_of(names, name) as int] == name,
        position_of(names, name) < names.len() <==> names.contains(name),
    decreases names.len(),
{
    if names.len() > 0 && names[0] != name {
        position_facts(names.skip(1), name);
        let p = position_of(names.skip(1), name);
        if names.contains(name) {
            let k = choose|k: int| 0 <= k < names.len() && names[k] == name;
            assert(names.skip(1)[k - 1] == name);
        }
        if p < names.skip(1).len() {
            assert(names[p as int + 1] == name);
        }
    } else if names.len() > 0 {
        assert(names[0] == name);
    }
}

/// What is said of a segment that a volume does not hold.
pub open spec fn absent_text() -> Seq<char> {
    "no such segment in the volume"@
}

impl MemoryVolume {
    /// The names held, in order.
    pub closed spec fn held_names(&self) -> Seq<Seq<char>> {
        text::texts(self.names@)
    }

    /// The contents held, in the order of the names.
    pub closed spec fn held_data(&self) -> Seq<Seq<u8>> {
        bytes::views(self.data@)
    }

    /// The file the volume stands for.
    pub closed spec fn path_text(&self) -> Seq<char> {
        self.path@
    }

    /// Whether every name has a content.
    #[verifier::type_invariant]
    closed spec fn wf(&self) -> bool {
        self.names@.len() == self.data@.len()
    }

    /// An empty volume.
    pub fn new(arn: &Arn, path: &str) -> (r: Self)
        ensures
            r.name() == arn@,
            r.path_text() == path@,
            r.held_names() == Seq::<Seq<char>>::empty(),
            r.held_data() == Seq::<Seq<u8>>::empty(),
    {
        let r = MemoryVolume {
            arn: arn.clone(),
            path: text::owned(path),
            names: Vec::new(),
            data: Vec::new(),
        };
        proof {
            assert(r.held_names() == Seq::<Seq<char>>::empty());
            assert(r.held_data() == Seq::<Seq<u8>>::empty());
        }
        r
    }

    /// The same volume with one more segment. A segment added under a name
    /// already held stays unread.
    pub fn with_segment(self, name: &str, data: &[u8]) -> (r: Self)
        ensures
            r.name() == self.name(),
            r.path_text() == self.path_text(),
            r.held_names() == self.held_names().push(name@),
            r.held_data() == self.held_data().push(data@),
    {
        proof {
            use_type_invariant(&self);
        }
        let MemoryVolume { arn, path, names, data: contents } = self;
        let mut all_names = names;
        let mut all_data = contents;
        let ghost names0 = all_names@;
        let ghost data0 = all_data@;
        all_names.push(text::owned(name));
        all_data.push(bytes::copied(data));
        proof {
            assert(text::texts(all_names@) == text::texts(names0).push(name@));
            assert(bytes::views(all_data@) == bytes::views(data0).push(data@));
        }
        MemoryVolume { arn, path, names: all_names, data: all_data }
    }

    /// Where a name is held, or the number of names.
    fn find(&self, name: &str) -> (r: usize)
        ensures
            r == position_of(self.held_names(), name@),
            r <= self.names@.len(),
    {
        let mut i: usize = 0;
        let ghost names = self.held_names();
        proof {
            assert(names.skip(0) == names);
        }
        while i < self.names.len()
            invariant
                i <= self.names.len(),
                names == text::texts(self.names@),
                position_of(names, name@) == i + position_of(names.skip(i as int), name@),
            decreases self.names.len() - i,
        {
            proof {
                assert(names.skip(i as int)[0] == self.names@[i as int]@);
                assert(names.skip(i as int).skip(1) == names.skip(i + 1));
            }
            if text::same(self.names[i].as_str(), name) {
                return i;
            }
            i = i + 1;
        }
        i
    }
}

impl Volume for MemoryVolume {
    closed spec fn name(&self) -> Seq<char> {
        self.arn@
    }

    open spec fn outcome(&self, segment: Seq<char>) -> Result<Seq<u8>, ErrorView> {
        let p = position_of(self.held_names(), segment);
        if p < self.held_names().len() {
            Ok(self.held_data()[p as int])
        } else {
            Err(malformed(LocusView::file(self.path_text()).segment(segment), absent_text()))
        }
    }

    open spec fn part(&self, segment: Seq<char>, offset: u64, length: usize) -> Result<
        Option<Seq<u8>>,
        ErrorView,
    > {
        match self.outcome(segment) {
            Err(e) => Err(e),
            Ok(whole) => if offset + length > whole.len() {
                Err(
                    malformed(
                        LocusView::file(self.path_text()).segment(segment),
                        "the segment ends before the part asked for"@,
                    ),
                )
            } else {
                Ok(Some(whole.subrange(offset as int, offset + length)))
            },
        }
    }

    open spec fn lists(&self, segment: Seq<char>) -> bool {
        self.held_names().contains(segment)
    }

    open spec fn listing(&self) -> Seq<Seq<char>> {
        self.held_names()
    }

    open spec fn plain_length(&self, segment: Seq<char>) -> Option<u64> {
        match self.outcome(segment) {
            Ok(data) => Some(data.len() as u64),
            Err(_) => None,
        }
    }

    open spec fn stored_length(&self, segment: Seq<char>) -> u64 {
        match self.outcome(segment) {
            Ok(data) => data.len() as u64,
            Err(_) => 0,
        }
    }

    fn arn(&self) -> (r: Arn) {
        self.arn.clone()
    }

    fn read_segment(&self, segment: &str) -> (r: Result<Vec<u8>, Error>) {
        proof {
            use_type_invariant(self);
        }
        let at = self.find(segment);
        if at < self.names.len() {
            Ok(bytes::copied(self.data[at].as_slice()))
        } else {
            Err(
                Error::malformed(
                    Locus::new(self.path.as_str()).segment(segment),
                    text::owned("no such segment in the volume"),
                ),
            )
        }
    }

    fn read_segment_range(&self, segment: &str, offset: u64, length: usize) -> (r: Result<
        Option<Vec<u8>>,
        Error,
    >) {
        proof {
            use_type_invariant(self);
        }
        let at = self.find(segment);
        if at >= self.names.len() {
            return Err(
                Error::malformed(
                    Locus::new(self.path.as_str()).segment(segment),
                    text::owned("no such segment in the volume"),
                ),
            );
        }
        let total: u64 = self.data[at].len() as u64;
        if offset > total || length as u64 > total - offset {
            return Err(
                Error::malformed(
                    Locus::new(self.path.as_str()).segment(segment),
                    text::owned("the segment ends before the part asked for"),
                ),
            );
        }
        let from: usize = offset as usize;
        Ok(Some(bytes::copied_range(self.data[at].as_slice(), from, from + length)))
    }

    fn has_segment(&self, segment: &str) -> (r: bool) {
        proof {
            position_facts(self.held_names(), segment@);
        }
        self.find(segment) < self.names.len()
    }

    fn segments(&self) -> (r: Vec<String>) {
        let mut out: Vec<String> = Vec::new();
        let mut i: usize = 0;
        while i < self.names.len()
            invariant
                i <= self.names.len(),
                text::texts(out@) == text::texts(self.names@).take(i as int),
            decreases self.names.len() - i,
        {
            let ghost before = out@;
            out.push(self.names[i].clone());
            proof {
                assert(text::texts(out@) == text::texts(before).push(self.names@[i as int]@));
                assert(text::texts(self.names@).take(i + 1) == text::texts(self.names@).take(
                    i as int,
                ).push(self.names@[i as int]@));
            }
            i = i + 1;
        }
        proof {
            assert(text::texts(self.names@).take(i as int) == text::texts(self.names@));
        }
        out
    }

    fn uncompressed_bytes(&self, segment: &str) -> (r: Option<u64>) {
        proof {
            use_type_invariant(self);
        }
        let at = self.find(segment);
        if at < self.names.len() {
            Some(self.data[at].len() as u64)
        } else {
            None
        }
    }

    fn stored_bytes(&self, segment: &str) -> (r: u64) {
        proof {
            use_type_invariant(self);
        }
        let at = self.find(segment);
        if at < self.names.len() {
            self.data[at].len() as u64
        } else {
            0
        }
    }
}

} // verus!
