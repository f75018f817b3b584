//! Writing a complete AFF4 volume.
//!
//! The order of the members is the point here. `container.description` has to be
//! the first, so it is there from the moment a writer exists, and nothing can come
//! before it. What a caller states is kept until the end, because the metadata
//! describes members that do not exist yet when the first one is written.

use vstd::prelude::*;

use crate::arn::{Arn, NameMapping};
use crate::bytes;
use crate::error::{io_failure, Error, ErrorView, Locus, LocusView};
use crate::rdf::{statement, turtle, typed_as, Graph, Term, TripleView};
use crate::text;
use crate::verify::report::capped_sum;
use crate::write::guard::{path_view, write_permission, SourceRegistry};

verus! {

/// The producing tool, as `version.txt` names it.
pub const PRODUCING_TOOL: &'static str = "aff4tools 0.1.0";

/// The member that names the volume.
pub const DESCRIPTION_SEGMENT: &'static str = "container.description";

/// The member that declares the version.
pub const VERSION_SEGMENT: &'static str = "version.txt";

/// The member that holds the metadata.
pub const METADATA_SEGMENT: &'static str = "information.turtle";

/// Which AFF4 version a container declares.
///
/// The minor version marks features: 0 for a physical image, 1 for a logical one.
#[derive(Debug, Clone, Copy, PartialEq, Eq, Structural)]
pub enum VersionProfile {
    /// A physical image.
    Physical,
    /// A logical image, as AFF4-L was first described.
    Logical,
    /// A logical image of the AFF4-L 1.0 standard.
    LogicalV21,
}

/// The major version that a profile declares.
pub open spec fn major_of(profile: VersionProfile) -> nat {
    match profile {
        VersionProfile::LogicalV21 => 2,
        _ => 1,
    }
}

/// The minor version that a profile declares.
pub open spec fn minor_of(profile: VersionProfile) -> nat {
    match profile {
        VersionProfile::Physical => 0,
        _ => 1,
    }
}

/// What `version.txt` holds for a profile.
pub open spec fn version_content(profile: VersionProfile) -> Seq<char> {
    "major="@ + text::decimal(major_of(profile)) + "\nminor="@ + text::decimal(minor_of(profile))
        + "\ntool="@ + PRODUCING_TOOL@ + "\n"@
}

impl VersionProfile {
    /// The major version this profile declares.
    pub fn major(self) -> (r: u8)
        ensures
            r == major_of(self),
    {
        match self {
            VersionProfile::LogicalV21 => 2,
            _ => 1,
        }
    }

    /// The minor version this profile declares.
    pub fn minor(self) -> (r: u8)
        ensures
            r == minor_of(self),
    {
        match self {
            VersionProfile::Physical => 0,
            _ => 1,
        }
    }
}

/// What `version.txt` holds for a profile.
pub fn version_text(profile: VersionProfile) -> (r: String)
    ensures
        r@ == version_content(profile),
{
    text::cat7(
        "major=",
        text::dec(profile.major() as u64).as_str(),
        "\nminor=",
        text::dec(profile.minor() as u64).as_str(),
        "\ntool=",
        PRODUCING_TOOL,
        "\n",
    )
}

/// One member of a volume.
#[derive(Debug)]
pub struct Member {
    /// Its name.
    pub name: String,
    /// Its content, before any compression.
    pub data: Vec<u8>,
    /// Whether it is compressed where it is stored.
    pub deflated: bool,
}

/// What a [`Member`] says, as plain values.
#[verifier::ext_equal]
pub struct MemberView {
    /// Its name.
    pub name: Seq<char>,
    /// Its content, before any compression.
    pub data: Seq<u8>,
    /// Whether it is compressed where it is stored.
    pub deflated: bool,
}

impl View for Member {
    type V = MemberView;

    open spec fn view(&self) -> MemberView {
        MemberView { name: self.name@, data: self.data@, deflated: self.deflated }
    }
}

/// What a list of members says.
pub open spec fn member_views(list: Seq<Member>) -> Seq<MemberView> {
    Seq::new(list.len(), |i: int| list[i]@)
}

/// The members of a volume: those taken off and those queued.
struct MemberLog {
    queue: Vec<Member>,
    taken: Ghost<Seq<MemberView>>,
}

impl MemberLog {
    /// Every member, in the order added.
    closed spec fn all(self) -> Seq<MemberView> {
        self.taken@ + member_views(self.queue@)
    }

    /// The members that have not been taken off yet.
    closed spec fn queued(self) -> Seq<MemberView> {
        member_views(self.queue@)
    }

    /// No members.
    fn new() -> (r: Self)
        ensures
            r.all() == Seq::<MemberView>::empty(),
            r.queued() == Seq::<MemberView>::empty(),
    {
        let queue: Vec<Member> = Vec::new();
        proof {
            assert(Seq::<MemberView>::empty() + member_views(queue@)
                =~= Seq::<MemberView>::empty());
            assert(member_views(queue@) =~= Seq::<MemberView>::empty());
        }
        MemberLog { queue, taken: Ghost(Seq::empty()) }
    }

    /// Add a member.
    fn add_member(&mut self, member: Member)
        ensures
            final(self).all() == old(self).all().push(member@),
            final(self).queued() == old(self).queued().push(member@),
    {
        let ghost queued = member_views(self.queue@);
        self.queue.push(member);
        proof {
            assert(member_views(self.queue@) =~= queued.push(member@));
            assert(self.all() =~= old(self).all().push(member@));
        }
    }

    /// Take off the members that are queued.
    fn take(&mut self) -> (r: Vec<Member>)
        ensures
            member_views(r@) == old(self).queued(),
            final(self).queued() == Seq::<MemberView>::empty(),
            final(self).all() == old(self).all(),
    {
        let ghost all = self.all();
        let mut queue: Vec<Member> = Vec::new();
        proof {
            assert(member_views(queue@) =~= Seq::<MemberView>::empty());
            assert(all + member_views(queue@) =~= all);
        }
        std::mem::swap(&mut self.queue, &mut queue);
        self.taken = Ghost(all);
        queue
    }
}

/// Builds one AFF4 volume.
///
/// Members queue up and can be taken off at any time, so that a long acquisition
/// need not hold what it has already produced. Whoever writes them to the file says how
/// far the file has come.
pub struct ContainerWriter {
    path: String,
    volume_arn: Arn,
    mapping: NameMapping,
    log: MemberLog,
    written: u64,
    graph: Graph,
}

/// What a [`ContainerWriter`] has been given, as plain values.
#[verifier::ext_equal]
pub struct WriterView {
    /// The file being written.
    pub path: Seq<char>,
    /// The volume's name.
    pub volume: Seq<char>,
    /// How resource names become member names.
    pub mapping: NameMapping,
    /// Every member, in the order added.
    pub members: Seq<MemberView>,
    /// How far the file has come.
    pub written: u64,
    /// Every statement, in the order made.
    pub graph: Seq<TripleView>,
}

impl WriterView {
    /// With one more member.
    pub open spec fn with_member(self, name: Seq<char>, data: Seq<u8>, deflated: bool) -> WriterView {
        WriterView { members: self.members.push(MemberView { name, data, deflated }), ..self }
    }

    /// With one more member, as it is.
    pub open spec fn stored(self, name: Seq<char>, data: Seq<u8>) -> WriterView {
        self.with_member(name, data, false)
    }

    /// With one more statement.
    pub open spec fn state(self, triple: TripleView) -> WriterView {
        WriterView { graph: self.graph.push(triple), ..self }
    }

    /// With more statements.
    pub open spec fn state_all(self, triples: Seq<TripleView>) -> WriterView {
        WriterView { graph: self.graph + triples, ..self }
    }
}

/// How resource names become member names in a container of a profile.
pub open spec fn mapping_of(profile: VersionProfile) -> NameMapping {
    match profile {
        VersionProfile::LogicalV21 => NameMapping::Verbatim,
        _ => NameMapping::Escaped,
    }
}

/// A writer with its two leading members: the volume's name, then the version.
pub open spec fn fresh_writer(path: Seq<char>, volume: Seq<char>, profile: VersionProfile) -> WriterView {
    WriterView {
        path,
        volume,
        mapping: mapping_of(profile),
        members: seq![
            MemberView {
                name: DESCRIPTION_SEGMENT@,
                data: vstd::utf8::encode_utf8(volume),
                deflated: false,
            },
            MemberView {
                name: VERSION_SEGMENT@,
                data: vstd::utf8::encode_utf8(version_content(profile)),
                deflated: false,
            },
        ],
        written: 0,
        graph: Seq::empty(),
    }
}

/// The members of a finished volume and the comment that closes it.
#[derive(Debug)]
pub struct FinishedContainer {
    /// The members still queued, the metadata last.
    pub members: Vec<Member>,
    /// The comment: the volume's name.
    pub comment: String,
}

/// Every member of a finished volume, in order: what was added, then the metadata.
pub open spec fn finished_members(w: WriterView) -> Seq<MemberView> {
    w.members.push(
        MemberView {
            name: METADATA_SEGMENT@,
            data: vstd::utf8::encode_utf8(turtle(w.graph)),
            deflated: true,
        },
    )
}

/// What has been put in the volume's place: the leading members are there and no
/// other.
pub open spec fn leads_with_description(members: Seq<MemberView>, volume: Seq<char>) -> bool {
    &&& members.len() >= 2
    &&& members[0].name == DESCRIPTION_SEGMENT@
    &&& members[0].data == vstd::utf8::encode_utf8(volume)
    &&& !members[0].deflated
    &&& members[1].name == VERSION_SEGMENT@
}

impl ContainerWriter {
    /// What this writer has been given.
    pub closed spec fn view(&self) -> WriterView {
        WriterView {
            path: self.path@,
            volume: self.volume_arn@,
            mapping: self.mapping,
            members: self.log.all(),
            written: self.written,
            graph: self.graph@,
        }
    }

    /// The members that have not been taken off yet.
    pub closed spec fn queued(&self) -> Seq<MemberView> {
        self.log.queued()
    }

    /// Create a new volume for a physical image.
    ///
    /// `canonical` is the canonical form of `path`, where it names a file that
    /// exists.
    pub fn create(path: &str, canonical: Option<&str>, registry: &SourceRegistry) -> (r: Result<
        Self,
        Error,
    >)
        ensures
            created(r, path@, path_view(canonical), registry@, VersionProfile::Physical),
    {
        ContainerWriter::create_with_profile(path, canonical, registry, VersionProfile::Physical)
    }

    /// Create a new volume for a logical image.
    pub fn create_logical(path: &str, canonical: Option<&str>, registry: &SourceRegistry) -> (r:
        Result<Self, Error>)
        ensures
            created(r, path@, path_view(canonical), registry@, VersionProfile::Logical),
    {
        ContainerWriter::create_with_profile(path, canonical, registry, VersionProfile::Logical)
    }

    /// Create a new volume that declares a profile's version, under a name of its
    /// own.
    pub fn create_with_profile(
        path: &str,
        canonical: Option<&str>,
        registry: &SourceRegistry,
        profile: VersionProfile,
    ) -> (r: Result<Self, Error>)
        ensures
            created(r, path@, path_view(canonical), registry@, profile),
    {
        match registry.assert_not_source(path, canonical) {
            Ok(()) => {},
            Err(e) => return Err(e),
        }
        match new_uuid(path) {
            Ok(uuid) => Ok(ContainerWriter::named(path, uuid.as_str(), profile)),
            Err(e) => Err(e),
        }
    }

    /// A new volume under a given identifier.
    pub fn named(path: &str, uuid: &str, profile: VersionProfile) -> (r: Self)
        requires
            uuid@.len() > 0,
        ensures
            r.view() == fresh_writer(path@, "aff4://"@ + uuid@, profile),
            r.queued() == r.view().members,
            leads_with_description(r.view().members, r.view().volume),
    {
        let name = text::cat2("aff4://", uuid);
        let volume_arn = Arn::of_id(uuid);
        let mut log = MemberLog::new();
        log.add_member(
            Member {
                name: text::owned(DESCRIPTION_SEGMENT),
                data: text::utf8(name.as_str()),
                deflated: false,
            },
        );
        log.add_member(
            Member {
                name: text::owned(VERSION_SEGMENT),
                data: text::utf8(version_text(profile).as_str()),
                deflated: false,
            },
        );
        let mapping = match profile {
            VersionProfile::LogicalV21 => NameMapping::Verbatim,
            _ => NameMapping::Escaped,
        };
        let r = ContainerWriter {
            path: text::owned(path),
            volume_arn,
            mapping,
            log,
            written: 0,
            graph: Graph::new(),
        };
        proof {
            let expected = fresh_writer(path@, "aff4://"@ + uuid@, profile);
            assert(r.log.all() =~= expected.members);
            assert(r.log.queued() =~= expected.members);
            assert(r.view() =~= expected);
        }
        r
    }

    /// The file being written.
    pub fn path(&self) -> (r: &str)
        ensures
            r@ == self.view().path,
    {
        self.path.as_str()
    }

    /// The volume's name.
    pub fn volume_arn(&self) -> (r: &Arn)
        ensures
            r@ == self.view().volume,
    {
        &self.volume_arn
    }

    /// How resource names become member names.
    pub fn name_mapping(&self) -> (r: NameMapping)
        ensures
            r == self.view().mapping,
    {
        self.mapping
    }

    /// The metadata, to be added to.
    pub fn graph_mut(&mut self) -> (r: &mut Graph)
        ensures
            r@ == old(self).view().graph,
            final(self).view() == (WriterView { graph: final(r)@, ..old(self).view() }),
            final(self).queued() == old(self).queued(),
    {
        &mut self.graph
    }

    /// State a property of a resource.
    pub fn add(&mut self, subject: &str, predicate: &str, object: Term)
        ensures
            final(self).view() == old(self).view().state(
                statement(subject@, predicate@, object@),
            ),
            final(self).queued() == old(self).queued(),
    {
        self.graph.add(subject, predicate, object);
    }

    /// State that a resource has a type.
    pub fn add_type(&mut self, subject: &str, class: &str)
        ensures
            final(self).view() == old(self).view().state(typed_as(subject@, class@)),
            final(self).queued() == old(self).queued(),
    {
        self.graph.add_type(subject, class);
    }

    /// Add a member as it is.
    pub fn add_stored_segment(&mut self, name: &str, data: &[u8])
        ensures
            final(self).view() == old(self).view().stored(name@, data@),
            final(self).queued() == old(self).queued().push(
                MemberView { name: name@, data: data@, deflated: false },
            ),
    {
        self.queue_member(name, data, false);
    }

    /// Add a member to be compressed.
    pub fn add_deflated_segment(&mut self, name: &str, data: &[u8])
        ensures
            final(self).view() == old(self).view().with_member(name@, data@, true),
            final(self).queued() == old(self).queued().push(
                MemberView { name: name@, data: data@, deflated: true },
            ),
    {
        self.queue_member(name, data, true);
    }

    /// Add a member.
    fn queue_member(&mut self, name: &str, data: &[u8], deflated: bool)
        ensures
            final(self).view() == old(self).view().with_member(name@, data@, deflated),
            final(self).queued() == old(self).queued().push(
                MemberView { name: name@, data: data@, deflated },
            ),
    {
        self.log.add_member(
            Member { name: text::owned(name), data: bytes::copied(data), deflated },
        );
        proof {
            assert(self.view() =~= old(self).view().with_member(name@, data@, deflated));
        }
    }

    /// Take off the members that are queued.
    pub fn take_members(&mut self) -> (r: Vec<Member>)
        ensures
            member_views(r@) == old(self).queued(),
            final(self).queued() == Seq::<MemberView>::empty(),
            final(self).view() == old(self).view(),
    {
        self.log.take()
    }

    /// Note how far the file has come: the position behind the members that were taken
    /// off and written to it.
    pub fn wrote_to(&mut self, position: u64)
        ensures
            final(self).view() == (WriterView { written: position, ..old(self).view() }),
            final(self).queued() == old(self).queued(),
    {
        self.written = position;
    }

    /// Bytes written to the container so far: the position in its file, headers and
    /// compressed members as they are there.
    pub fn bytes_written(&self) -> (r: u64)
        ensures
            r == self.view().written,
    {
        self.written
    }

    /// Close the volume: the metadata is the last member.
    pub fn finish(self) -> (r: FinishedContainer)
        ensures
            self.view().members.take(self.view().members.len() - self.queued().len())
                + member_views(r.members@) == finished_members(self.view()),
            r.members@.len() == self.queued().len() + 1,
            r.comment@ == self.view().volume,
    {
        let ghost taken = self.log.taken@;
        let mut members = self.log.queue;
        let ghost queued = member_views(members@);
        let turtle_text = self.graph.serialize();
        let last = Member {
            name: text::owned(METADATA_SEGMENT),
            data: text::utf8(turtle_text.as_str()),
            deflated: true,
        };
        members.push(last);
        proof {
            assert(member_views(members@) =~= queued.push(last@));
            let all = self.view().members;
            assert(all.take(all.len() - queued.len()) =~= taken);
            assert(taken + queued.push(last@) =~= (taken + queued).push(last@));
        }
        FinishedContainer { members, comment: text::owned(self.volume_arn.as_str()) }
    }
}

/// What creating a volume gives: a refusal for a source, a failure where the
/// system gives no entropy, or a new volume under some identifier.
pub open spec fn created(
    r: Result<ContainerWriter, Error>,
    path: Seq<char>,
    canonical: Option<Seq<char>>,
    sources: Set<Seq<char>>,
    profile: VersionProfile,
) -> bool {
    match write_permission(sources, path, canonical) {
        Err(e) => r is Err && r->Err_0@ == e,
        Ok(()) => match r {
            Ok(w) => exists|entropy: Seq<u8>|
                entropy.len() == 16 && w.view() == fresh_writer(
                    path,
                    "aff4://"@ + #[trigger] uuid_of(entropy),
                    profile,
                ) && w.queued() == w.view().members,
            Err(e) => exists|cause: Seq<char>|
                e@ == #[trigger] entropy_failure(path, cause),
        },
    }
}

/// Every volume leads with its description, and ends with its metadata, whatever
/// is added in between.
pub proof fn member_order(w: WriterView, added: Seq<MemberView>, path: Seq<char>, volume: Seq<char>, profile: VersionProfile)
    requires
        w.members == fresh_writer(path, volume, profile).members + added,
    ensures
        leads_with_description(finished_members(w), volume),
        finished_members(w).last().name == METADATA_SEGMENT@,
{
    let fresh = fresh_writer(path, volume, profile).members;
    let all = finished_members(w);
    assert(all[0] == fresh[0]);
    assert(all[1] == fresh[1]);
}

/// A failure to get entropy.
pub open spec fn entropy_failure(path: Seq<char>, cause: Seq<char>) -> ErrorView {
    io_failure(
        LocusView::file(path),
        "the OS entropy source is unavailable, so no volume ARN can be generated: "@ + cause,
    )
}

/// The bits of an identifier that state its version and variant, set.
pub open spec fn marked(entropy: Seq<u8>) -> Seq<u8> {
    entropy.update(6, (entropy[6] & 0x0f) | 0x40).update(8, (entropy[8] & 0x3f) | 0x80)
}

/// A version 4 identifier made of sixteen bytes: lower-case hexadecimal in groups
/// of eight, four, four, four and twelve.
pub open spec fn uuid_of(entropy: Seq<u8>) -> Seq<char> {
    let b = marked(entropy);
    text::hex(b.subrange(0, 4)) + "-"@ + text::hex(b.subrange(4, 6)) + "-"@ + text::hex(
        b.subrange(6, 8),
    ) + "-"@ + (text::hex(b.subrange(8, 10)) + "-"@ + text::hex(b.subrange(10, 16)))
}

/// The identifier made of sixteen bytes.
pub fn uuid_text(entropy: &[u8]) -> (r: String)
    requires
        entropy@.len() == 16,
    ensures
        r@ == uuid_of(entropy@),
{
    let mut b: Vec<u8> = bytes::copied(entropy);
    let six: u8 = (b[6] & 0x0f) | 0x40;
    let eight: u8 = (b[8] & 0x3f) | 0x80;
    b.set(6, six);
    b.set(8, eight);
    proof {
        assert(b@ =~= marked(entropy@));
    }
    let data = b.as_slice();
    let tail = text::cat3(
        text::hex_lower(vstd::slice::slice_subrange(data, 8, 10)).as_str(),
        "-",
        text::hex_lower(vstd::slice::slice_subrange(data, 10, 16)).as_str(),
    );
    text::cat7(
        text::hex_lower(vstd::slice::slice_subrange(data, 0, 4)).as_str(),
        "-",
        text::hex_lower(vstd::slice::slice_subrange(data, 4, 6)).as_str(),
        "-",
        text::hex_lower(vstd::slice::slice_subrange(data, 6, 8)).as_str(),
        "-",
        tail.as_str(),
    )
}

/// Sixteen bytes from `getrandom::fill`, which fills the buffer it is given with
/// random bytes from the system, or fails; a failure is handed on in words. Nothing
/// is claimed of the bytes but their number, and nothing of the words.
#[verifier::external_body]
fn entropy() -> (r: Result<Vec<u8>, String>)
    ensures
        r matches Ok(b) ==> b@.len() == 16,
{
    let mut bytes = [0u8; 16];
    match getrandom::fill(&mut bytes) {
        Ok(()) => Ok(bytes.to_vec()),
        Err(e) => Err(e.to_string()),
    }
}

/// A version 4 identifier from the system's entropy.
///
/// Where there is none, that is a failure: a predictable name could collide, and
/// two containers of one name cannot be told apart.
pub fn new_uuid(path: &str) -> (r: Result<String, Error>)
    ensures
        (match r {
            Ok(s) => exists|entropy: Seq<u8>| entropy.len() == 16 && s@ == #[trigger] uuid_of(entropy),
            Err(e) => exists|cause: Seq<char>| e@ == #[trigger] entropy_failure(path@, cause),
        }),
        r matches Ok(s) ==> s@.len() > 0,
{
    match entropy() {
        Ok(b) => {
            let s = uuid_text(b.as_slice());
            proof {
                assert(s@ == uuid_of(b@));
                uuid_length(b@);
            }
            Ok(s)
        },
        Err(cause) => {
            let r = Error::io(
                Locus::new(path),
                text::cat2(
                    "the OS entropy source is unavailable, so no volume ARN can be generated: ",
                    cause.as_str(),
                ),
            );
            proof {
                assert(r@ == entropy_failure(path@, cause@));
            }
            Err(r)
        },
    }
}

/// An identifier has thirty-six characters.
pub proof fn uuid_length(entropy: Seq<u8>)
    requires
        entropy.len() == 16,
    ensures
        uuid_of(entropy).len() == 36,
{
    reveal_strlit("-");
}

} // verus!
