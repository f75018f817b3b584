//! Digests over byte strings.

use vstd::prelude::*;

use crate::model::{HashAlgorithm, StoredHash, StoredHashView};
use crate::text;

verus! {

/// The MD5 digest of a byte string.
pub uninterp spec fn md5_digest(data: Seq<u8>) -> Seq<u8>;

/// The SHA-1 digest of a byte string.
pub uninterp spec fn sha1_digest(data: Seq<u8>) -> Seq<u8>;

/// The SHA-256 digest of a byte string.
pub uninterp spec fn sha256_digest(data: Seq<u8>) -> Seq<u8>;

/// The SHA-512 digest of a byte string.
pub uninterp spec fn sha512_digest(data: Seq<u8>) -> Seq<u8>;

/// The state of a digest under way: one of the outside hashers, behind their common
/// interface.
///
/// The hashers' own types are generic over traits of their crates, so it is held here
/// instead of being spelled out.
#[verifier::external_body]
pub struct DigestState {
    inner: Box<dyn md5::digest::DynDigest>,
}

/// The algorithm that a state computes.
pub uninterp spec fn state_algorithm(state: DigestState) -> HashAlgorithm;

/// The bytes that a state has been fed.
pub uninterp spec fn state_fed(state: DigestState) -> Seq<u8>;

/// `md5::Md5::default` is an MD5 hasher that has been fed nothing.
#[verifier::external_body]
fn md5_begin() -> (r: DigestState)
    ensures
        state_algorithm(r) == HashAlgorithm::Md5,
        state_fed(r) == Seq::<u8>::empty(),
{
    DigestState { inner: Box::new(md5::Md5::default()) }
}

/// `sha1::Sha1::default` is a SHA-1 hasher that has been fed nothing.
#[verifier::external_body]
fn sha1_begin() -> (r: DigestState)
    ensures
        state_algorithm(r) == HashAlgorithm::Sha1,
        state_fed(r) == Seq::<u8>::empty(),
{
    DigestState { inner: Box::new(sha1::Sha1::default()) }
}

/// `sha2::Sha256::default` is a SHA-256 hasher that has been fed nothing.
#[verifier::external_body]
fn sha256_begin() -> (r: DigestState)
    ensures
        state_algorithm(r) == HashAlgorithm::Sha256,
        state_fed(r) == Seq::<u8>::empty(),
{
    DigestState { inner: Box::new(sha2::Sha256::default()) }
}

/// `sha2::Sha512::default` is a SHA-512 hasher that has been fed nothing.
#[verifier::external_body]
fn sha512_begin() -> (r: DigestState)
    ensures
        state_algorithm(r) == HashAlgorithm::Sha512,
        state_fed(r) == Seq::<u8>::empty(),
{
    DigestState { inner: Box::new(sha2::Sha512::default()) }
}

/// `digest::DynDigest::update` feeds a hasher some more bytes, after those that it has
/// been fed before.
#[verifier::external_body]
fn feed_state(state: &mut DigestState, data: &[u8])
    ensures
        state_algorithm(*final(state)) == state_algorithm(*old(state)),
        state_fed(*final(state)) == state_fed(*old(state)) + data@,
{
    state.inner.update(data)
}

/// `digest::DynDigest::finalize` returns the digest of all that a hasher has been fed:
/// 16 bytes of MD5, 20 of SHA-1, 32 of SHA-256 or 64 of SHA-512, a function of those
/// bytes alone.
#[verifier::external_body]
fn finish_state(state: DigestState) -> (r: Vec<u8>)
    ensures
        state_algorithm(state) == HashAlgorithm::Md5 ==> r@ == md5_digest(state_fed(state))
            && r@.len() == 16,
        state_algorithm(state) == HashAlgorithm::Sha1 ==> r@ == sha1_digest(state_fed(state))
            && r@.len() == 20,
        state_algorithm(state) == HashAlgorithm::Sha256 ==> r@ == sha256_digest(state_fed(state))
            && r@.len() == 32,
        state_algorithm(state) == HashAlgorithm::Sha512 ==> r@ == sha512_digest(state_fed(state))
            && r@.len() == 64,
{
    state.inner.finalize().into_vec()
}

/// A state for an algorithm, where this library computes it.
fn begin_state(a: HashAlgorithm) -> (r: Option<DigestState>)
    ensures
        r is Some <==> computable(a),
        r matches Some(s) ==> state_algorithm(s) == a && state_fed(s) == Seq::<u8>::empty(),
{
    match a {
        HashAlgorithm::Md5 => Some(md5_begin()),
        HashAlgorithm::Sha1 => Some(sha1_begin()),
        HashAlgorithm::Sha256 => Some(sha256_begin()),
        HashAlgorithm::Sha512 => Some(sha512_begin()),
        _ => None,
    }
}

/// The MD5 digest of some bytes.
fn md5_of(data: &[u8]) -> (r: Vec<u8>)
    ensures
        r@ == md5_digest(data@),
        r@.len() == 16,
{
    let mut state = md5_begin();
    feed_state(&mut state, data);
    proof {
        assert(state_fed(state) =~= data@);
    }
    finish_state(state)
}

/// The SHA-1 digest of some bytes.
fn sha1_of(data: &[u8]) -> (r: Vec<u8>)
    ensures
        r@ == sha1_digest(data@),
        r@.len() == 20,
{
    let mut state = sha1_begin();
    feed_state(&mut state, data);
    proof {
        assert(state_fed(state) =~= data@);
    }
    finish_state(state)
}

/// The SHA-256 digest of some bytes.
fn sha256_of(data: &[u8]) -> (r: Vec<u8>)
    ensures
        r@ == sha256_digest(data@),
        r@.len() == 32,
{
    let mut state = sha256_begin();
    feed_state(&mut state, data);
    proof {
        assert(state_fed(state) =~= data@);
    }
    finish_state(state)
}

/// The SHA-512 digest of some bytes.
fn sha512_of(data: &[u8]) -> (r: Vec<u8>)
    ensures
        r@ == sha512_digest(data@),
        r@.len() == 64,
{
    let mut state = sha512_begin();
    feed_state(&mut state, data);
    proof {
        assert(state_fed(state) =~= data@);
    }
    finish_state(state)
}

/// Whether this library computes an algorithm over bytes.
pub open spec fn computable(a: HashAlgorithm) -> bool {
    a == HashAlgorithm::Md5 || a == HashAlgorithm::Sha1 || a == HashAlgorithm::Sha256 || a
        == HashAlgorithm::Sha512
}

/// The raw digest of `data` under an algorithm this library computes.
pub open spec fn digest_bytes(a: HashAlgorithm, data: Seq<u8>) -> Seq<u8> {
    match a {
        HashAlgorithm::Md5 => md5_digest(data),
        HashAlgorithm::Sha1 => sha1_digest(data),
        HashAlgorithm::Sha256 => sha256_digest(data),
        _ => sha512_digest(data),
    }
}

/// A computed digest.
#[derive(Debug, PartialEq, Eq)]
pub struct Digest {
    /// The algorithm that computed it.
    algorithm: HashAlgorithm,
    /// Its value, in lower-case hexadecimal.
    hex: String,
}

/// What a [`Digest`] says, as plain values.
#[verifier::ext_equal]
pub struct DigestView {
    /// The algorithm that computed it.
    pub algorithm: HashAlgorithm,
    /// Its value, in lower-case hexadecimal.
    pub hex: Seq<char>,
}

impl View for Digest {
    type V = DigestView;

    closed spec fn view(&self) -> DigestView {
        DigestView { algorithm: self.algorithm, hex: self.hex@ }
    }
}

/// The digest of `data` under an algorithm this library computes.
pub open spec fn digest_view(a: HashAlgorithm, data: Seq<u8>) -> DigestView {
    DigestView { algorithm: a, hex: text::hex(digest_bytes(a, data)) }
}

/// What a list of digests says.
pub open spec fn digest_views(list: Seq<Digest>) -> Seq<DigestView> {
    Seq::new(list.len(), |i: int| list[i]@)
}

/// A letter of the Latin alphabet in lower case; any other character as it is.
pub open spec fn ascii_lower(c: char) -> char {
    if 'A' <= c && c <= 'Z' {
        ((c as u32) + 32) as char
    } else {
        c
    }
}

/// Whether two texts differ in the case of Latin letters at most.
pub open spec fn same_but_for_case(a: Seq<char>, b: Seq<char>) -> bool {
    a.len() == b.len() && forall|i: int|
        0 <= i < a.len() ==> ascii_lower(#[trigger] a[i]) == ascii_lower(b[i])
}

/// Whether a computed digest is the one recorded: algorithm and value both.
pub open spec fn digest_matches(d: DigestView, stored: StoredHashView) -> bool {
    d.algorithm == stored.algorithm && same_but_for_case(d.hex, stored.hex)
}

/// A letter of the Latin alphabet in lower case; any other character as it is.
fn lower(c: char) -> (r: char)
    ensures
        r == ascii_lower(c),
{
    if 'A' <= c && c <= 'Z' {
        (c as u8 + 32) as char
    } else {
        c
    }
}

/// Whether two texts differ in the case of Latin letters at most.
pub fn eq_ignore_case(a: &str, b: &str) -> (r: bool)
    ensures
        r == same_but_for_case(a@, b@),
{
    let left = text::characters(a);
    let right = text::characters(b);
    if left.len() != right.len() {
        return false;
    }
    let mut i: usize = 0;
    while i < left.len()
        invariant
            i <= left.len() == right.len(),
            left@ == a@,
            right@ == b@,
            forall|k: int| 0 <= k < i ==> ascii_lower(#[trigger] a@[k]) == ascii_lower(b@[k]),
        decreases left.len() - i,
    {
        if lower(left[i]) != lower(right[i]) {
            proof {
                assert(ascii_lower(a@[i as int]) != ascii_lower(b@[i as int]));
            }
            return false;
        }
        i = i + 1;
    }
    true
}

impl Digest {
    /// The algorithm that computed this digest.
    pub fn algorithm(&self) -> (r: HashAlgorithm)
        ensures
            r == self@.algorithm,
    {
        self.algorithm
    }

    /// The value, in lower-case hexadecimal.
    pub fn hex(&self) -> (r: &str)
        ensures
            r@ == self@.hex,
    {
        self.hex.as_str()
    }

    /// Whether this is the digest recorded: algorithm and value both.
    pub fn matches(&self, stored: &StoredHash) -> (r: bool)
        ensures
            r == digest_matches(self@, stored@),
    {
        self.algorithm == stored.algorithm && eq_ignore_case(self.hex.as_str(), stored.hex.as_str())
    }
}

impl Clone for Digest {
    fn clone(&self) -> (r: Self)
        ensures
            r@ == self@,
    {
        Digest { algorithm: self.algorithm, hex: self.hex.clone() }
    }
}

/// Whether this library computes an algorithm over bytes.
pub fn is_computable(a: HashAlgorithm) -> (r: bool)
    ensures
        r == computable(a),
{
    match a {
        HashAlgorithm::Md5 => true,
        HashAlgorithm::Sha1 => true,
        HashAlgorithm::Sha256 => true,
        HashAlgorithm::Sha512 => true,
        _ => false,
    }
}

/// The raw digest of `data`, when this library computes the algorithm.
pub fn digest_bytes_of(a: HashAlgorithm, data: &[u8]) -> (r: Option<Vec<u8>>)
    ensures
        r is Some <==> computable(a),
        r matches Some(d) ==> d@ == digest_bytes(a, data@),
{
    match a {
        HashAlgorithm::Md5 => Some(md5_of(data)),
        HashAlgorithm::Sha1 => Some(sha1_of(data)),
        HashAlgorithm::Sha256 => Some(sha256_of(data)),
        HashAlgorithm::Sha512 => Some(sha512_of(data)),
        _ => None,
    }
}

/// The digest of `data`, when this library computes the algorithm.
pub fn digest_of(a: HashAlgorithm, data: &[u8]) -> (r: Option<Digest>)
    ensures
        r is Some <==> computable(a),
        r matches Some(d) ==> d@ == digest_view(a, data@),
{
    match digest_bytes_of(a, data) {
        Some(raw) => Some(Digest { algorithm: a, hex: text::hex_lower(raw.as_slice()) }),
        None => None,
    }
}

/// SHA-512 of `data`, as raw digest bytes.
pub fn sha512_raw(data: &[u8]) -> (r: Vec<u8>)
    ensures
        r@ == sha512_digest(data@),
        r@.len() == 64,
{
    sha512_of(data)
}

/// MD5 of `data`, as raw digest bytes.
pub fn md5_raw(data: &[u8]) -> (r: Vec<u8>)
    ensures
        r@ == md5_digest(data@),
        r@.len() == 16,
{
    md5_of(data)
}

/// SHA-1 of `data`, as raw digest bytes.
pub fn sha1_raw(data: &[u8]) -> (r: Vec<u8>)
    ensures
        r@ == sha1_digest(data@),
        r@.len() == 20,
{
    sha1_of(data)
}

/// The digests of `data` under those algorithms of a list that this library
/// computes, in the order of the list.
pub open spec fn digests_under(algorithms: Seq<HashAlgorithm>, data: Seq<u8>) -> Seq<DigestView>
    decreases algorithms.len(),
{
    if algorithms.len() == 0 {
        Seq::empty()
    } else {
        let before = digests_under(algorithms.drop_last(), data);
        if computable(algorithms.last()) {
            before.push(digest_view(algorithms.last(), data))
        } else {
            before
        }
    }
}

/// The digests of `data` under each algorithm this library computes.
pub fn digests_of(data: &[u8], algorithms: &[HashAlgorithm]) -> (r: Vec<Digest>)
    ensures
        digest_views(r@) == digests_under(algorithms@, data@),
{
    let mut out: Vec<Digest> = Vec::new();
    let mut i: usize = 0;
    while i < algorithms.len()
        invariant
            i <= algorithms.len(),
            digest_views(out@) == digests_under(algorithms@.take(i as int), data@),
        decreases algorithms.len() - i,
    {
        proof {
            let longer = algorithms@.take(i + 1);
            assert(longer.drop_last() == algorithms@.take(i as int));
            assert(longer.last() == algorithms@[i as int]);
        }
        match digest_of(algorithms[i], data) {
            Some(d) => {
                let ghost before = out@;
                out.push(d);
                proof {
                    assert(digest_views(out@) == digest_views(before).push(d@));
                }
            },
            None => {},
        }
        i = i + 1;
    }
    proof {
        assert(algorithms@.take(algorithms@.len() as int) == algorithms@);
    }
    out
}

/// A digest under way for each algorithm asked for.
struct Running {
    /// The algorithms asked for.
    algorithms: Vec<HashAlgorithm>,
    /// Their states, none where this library does not compute an algorithm.
    states: Vec<Option<DigestState>>,
    /// Every byte handed over.
    content: Ghost<Seq<u8>>,
    /// The slices they came in.
    slices: Ghost<Seq<Seq<u8>>>,
}

/// Whether a state is one of an algorithm, fed some bytes; none where the algorithm is
/// not computed.
spec fn state_is(state: Option<DigestState>, a: HashAlgorithm, content: Seq<u8>) -> bool {
    match state {
        Some(s) => computable(a) && state_algorithm(s) == a && state_fed(s) == content,
        None => !computable(a),
    }
}

impl Running {
    spec fn wf(&self) -> bool {
        &&& self.states@.len() == self.algorithms@.len()
        &&& forall|i: int|
            0 <= i < self.states@.len() ==> state_is(
                #[trigger] self.states@[i],
                self.algorithms@[i],
                self.content@,
            )
    }
}

/// Several digests over the bytes handed over so far. The bytes are not kept.
pub struct MultiHasher {
    running: Running,
}

impl MultiHasher {
    /// The algorithms asked for.
    pub closed spec fn asked(&self) -> Seq<HashAlgorithm> {
        self.running.algorithms@
    }

    /// Every byte handed over.
    pub closed spec fn content(&self) -> Seq<u8> {
        self.running.content@
    }

    /// The slices they came in, in order.
    pub closed spec fn slices(&self) -> Seq<Seq<u8>> {
        self.running.slices@
    }

    /// Each state is that of its algorithm over the bytes handed over.
    #[verifier::type_invariant]
    spec fn in_step(self) -> bool {
        self.running.wf()
    }

    /// A hasher for each of `algorithms`, over nothing yet.
    pub fn for_algorithms(algorithms: &[HashAlgorithm]) -> (r: Self)
        ensures
            r.asked() == algorithms@,
            r.content() == Seq::<u8>::empty(),
            r.slices() == Seq::<Seq<u8>>::empty(),
    {
        let mut states: Vec<Option<DigestState>> = Vec::new();
        let mut i: usize = 0;
        while i < algorithms.len()
            invariant
                i <= algorithms.len(),
                states@.len() == i,
                forall|k: int|
                    0 <= k < i ==> state_is(
                        #[trigger] states@[k],
                        algorithms@[k],
                        Seq::<u8>::empty(),
                    ),
            decreases algorithms.len() - i,
        {
            states.push(begin_state(algorithms[i]));
            i = i + 1;
        }
        MultiHasher {
            running: Running {
                algorithms: vstd::slice::slice_to_vec(algorithms),
                states,
                content: Ghost(Seq::empty()),
                slices: Ghost(Seq::empty()),
            },
        }
    }

    /// Take the next bytes.
    pub fn update(&mut self, data: &[u8])
        ensures
            final(self).asked() == old(self).asked(),
            final(self).content() == old(self).content() + data@,
            final(self).slices() == old(self).slices().push(data@),
    {
        proof {
            use_type_invariant(&*self);
        }
        let mut running = Running {
            algorithms: Vec::new(),
            states: Vec::new(),
            content: Ghost(Seq::empty()),
            slices: Ghost(Seq::empty()),
        };
        std::mem::swap(&mut self.running, &mut running);
        let Running { algorithms, states, content, slices } = running;
        let ghost before = content@;
        let ghost after = content@ + data@;
        let mut rest = states;
        let mut fed: Vec<Option<DigestState>> = Vec::new();
        let count: usize = rest.len();
        // Taken off the end, so put back from the end.
        while rest.len() > 0
            invariant
                count == algorithms@.len(),
                rest@.len() + fed@.len() == count,
                after == before + data@,
                forall|k: int|
                    0 <= k < rest@.len() ==> state_is(
                        #[trigger] rest@[k],
                        algorithms@[k],
                        before,
                    ),
                forall|k: int|
                    0 <= k < fed@.len() ==> state_is(
                        #[trigger] fed@[k],
                        algorithms@[count - 1 - k],
                        after,
                    ),
            decreases rest.len(),
        {
            match rest.pop() {
                Some(Some(state)) => {
                    let mut s = state;
                    feed_state(&mut s, data);
                    fed.push(Some(s));
                },
                _ => {
                    fed.push(None);
                },
            }
        }
        let mut states: Vec<Option<DigestState>> = Vec::new();
        while fed.len() > 0
            invariant
                count == algorithms@.len(),
                states@.len() + fed@.len() == count,
                forall|k: int|
                    0 <= k < fed@.len() ==> state_is(
                        #[trigger] fed@[k],
                        algorithms@[count - 1 - k],
                        after,
                    ),
                forall|k: int|
                    0 <= k < states@.len() ==> state_is(
                        #[trigger] states@[k],
                        algorithms@[k],
                        after,
                    ),
            decreases fed.len(),
        {
            match fed.pop() {
                Some(state) => {
                    states.push(state);
                },
                None => {},
            }
        }
        self.running = Running {
            algorithms,
            states,
            content: Ghost(after),
            slices: Ghost(slices@.push(data@)),
        };
    }

    /// The digest over all bytes under each algorithm this library computes.
    pub fn finish(self) -> (r: Vec<Digest>)
        ensures
            digest_views(r@) == digests_under(self.asked(), self.content()),
    {
        proof {
            use_type_invariant(&self);
        }
        let MultiHasher { running } = self;
        let Running { algorithms, states, content, slices: _ } = running;
        let ghost content = content@;
        let ghost all = algorithms@;
        let mut rest = states;
        let mut raw: Vec<Option<Vec<u8>>> = Vec::new();
        let count: usize = rest.len();
        while rest.len() > 0
            invariant
                count == all.len(),
                rest@.len() + raw@.len() == count,
                forall|k: int|
                    0 <= k < rest@.len() ==> state_is(#[trigger] rest@[k], all[k], content),
                forall|k: int|
                    0 <= k < raw@.len() ==> raw_is(
                        #[trigger] raw@[k],
                        all[count - 1 - k],
                        content,
                    ),
            decreases rest.len(),
        {
            match rest.pop() {
                Some(Some(state)) => {
                    raw.push(Some(finish_state(state)));
                },
                _ => {
                    raw.push(None);
                },
            }
        }
        let mut out: Vec<Digest> = Vec::new();
        let mut i: usize = 0;
        while i < count
            invariant
                i <= count,
                count == all.len(),
                all == algorithms@,
                raw@.len() == count - i,
                forall|k: int|
                    0 <= k < raw@.len() ==> raw_is(
                        #[trigger] raw@[k],
                        all[count - 1 - k],
                        content,
                    ),
                digest_views(out@) == digests_under(all.take(i as int), content),
            decreases count - i,
        {
            proof {
                let longer = all.take(i + 1);
                assert(longer.drop_last() == all.take(i as int));
                assert(longer.last() == all[i as int]);
            }
            match raw.pop() {
                Some(Some(bytes)) => {
                    let ghost before = out@;
                    let d = Digest {
                        algorithm: algorithms[i],
                        hex: text::hex_lower(bytes.as_slice()),
                    };
                    out.push(d);
                    proof {
                        assert(digest_views(out@) == digest_views(before).push(d@));
                    }
                },
                _ => {},
            }
            i = i + 1;
        }
        proof {
            assert(all.take(count as int) == all);
        }
        out
    }
}

/// Whether a digest is that of some bytes under an algorithm; none where the algorithm
/// is not computed.
spec fn raw_is(raw: Option<Vec<u8>>, a: HashAlgorithm, content: Seq<u8>) -> bool {
    match raw {
        Some(bytes) => computable(a) && bytes@ == digest_bytes(a, content),
        None => !computable(a),
    }
}

} // verus!
