//! Replica placement by rendezvous hashing: every volume is scored against
//! the key, the best scores win, and each winner gets a sub-volume bucket
//! derived from its own score.

use vstd::prelude::*;
use vstd::seq_lib::*;
use vstd::string::*;
use vstd::utf8::*;
use crate::digest::append_bytes;
use crate::digest::md5_compute;
use crate::digest::md5_digest;
use crate::digest::to_upper_hex_padded;
use crate::digest::upper_hex_padded;

verus! {

/// The score of a volume for a key: the MD5 digest of the key's bytes
/// followed by the volume's bytes.
pub open spec fn score(key: Seq<char>, volume: Seq<char>) -> Seq<u8> {
    md5_digest(encode_utf8(key) + encode_utf8(volume))
}

/// Strict lexicographic order on byte strings: `a` comes before `b`.
pub open spec fn bytes_before(a: Seq<u8>, b: Seq<u8>) -> bool
    decreases a.len(),
{
    if b.len() == 0 {
        false
    } else if a.len() == 0 {
        true
    } else if a[0] != b[0] {
        a[0] < b[0]
    } else {
        bytes_before(a.drop_first(), b.drop_first())
    }
}

/// Whether a volume with score `sa` and name `a` is ranked strictly ahead of
/// one with score `sb` and name `b`: the greater score wins, and on equal
/// scores the lesser name.
pub open spec fn ahead(sa: Seq<u8>, a: Seq<char>, sb: Seq<u8>, b: Seq<char>) -> bool {
    bytes_before(sb, sa) || (sa == sb && bytes_before(encode_utf8(a), encode_utf8(b)))
}

/// Whether volume `a` is ranked strictly ahead of volume `b` for `key`.
pub open spec fn outranks(key: Seq<char>, a: Seq<char>, b: Seq<char>) -> bool {
    ahead(score(key, a), a, score(key, b), b)
}

/// A ranking with one more volume: `volume` goes in front of the first entry
/// that it outranks, or to the end.
pub open spec fn insert_ranked(key: Seq<char>, ranking: Seq<Seq<char>>, volume: Seq<char>) -> Seq<
    Seq<char>,
>
    decreases ranking.len(),
{
    if ranking.len() == 0 {
        seq![volume]
    } else if outranks(key, volume, ranking[0]) {
        seq![volume] + ranking
    } else {
        seq![ranking[0]] + insert_ranked(key, ranking.drop_first(), volume)
    }
}

/// The volumes in rank order for `key`, best first.
pub open spec fn ranked(key: Seq<char>, volumes: Seq<Seq<char>>) -> Seq<Seq<char>>
    decreases volumes.len(),
{
    if volumes.len() == 0 {
        Seq::empty()
    } else {
        insert_ranked(key, ranked(key, volumes.drop_last()), volumes.last())
    }
}

/// The sub-volume bucket of a score: its last four bytes, read as a
/// big-endian number, modulo the number of sub-volumes.
pub open spec fn subvolume_index(score: Seq<u8>, subvolumes: nat) -> nat
    recommends
        score.len() == 16,
        subvolumes > 0,
{
    (score[12] as nat * 16777216 + score[13] as nat * 65536 + score[14] as nat * 256
        + score[15] as nat) % subvolumes
}

/// The suffix that names a sub-volume bucket: `/sv` and the bucket in
/// upper-case hexadecimal, at least two digits.
pub open spec fn subvolume_suffix(score: Seq<u8>, subvolumes: nat) -> Seq<char> {
    seq!['/', 's', 'v'] + upper_hex_padded(subvolume_index(score, subvolumes))
}

/// How many volumes a placement holds.
pub open spec fn placement_len(volumes: Seq<Seq<char>>, replicas: nat) -> nat {
    if replicas < volumes.len() {
        replicas
    } else {
        volumes.len()
    }
}

/// The placement of `key`: the `replicas` best-ranked volumes, each with its
/// sub-volume suffix, except that a single replica carries no suffix.
pub open spec fn placement(
    key: Seq<char>,
    volumes: Seq<Seq<char>>,
    replicas: nat,
    subvolumes: nat,
) -> Seq<Seq<char>> {
    Seq::new(
        placement_len(volumes, replicas),
        |i: int|
            if replicas == 1 {
                ranked(key, volumes)[i]
            } else {
                ranked(key, volumes)[i] + subvolume_suffix(
                    score(key, ranked(key, volumes)[i]),
                    subvolumes,
                )
            },
    )
}

/// What a ring is configured with.
pub struct RingView {
    pub volumes: Seq<Seq<char>>,
    pub replicas: nat,
    pub subvolumes: nat,
}

/// The configured volume set with the replication parameters.
pub struct Ring {
    volumes: Vec<String>,
    replicas: usize,
    subvolumes: u32,
}

impl View for Ring {
    type V = RingView;

    closed spec fn view(&self) -> RingView {
        RingView {
            volumes: self.volumes.deep_view(),
            replicas: self.replicas as nat,
            subvolumes: self.subvolumes as nat,
        }
    }
}

/// Decides `bytes_before(a, b)`.
pub fn is_before(a: &[u8], b: &[u8]) -> (r: bool)
    ensures
        r == bytes_before(a@, b@),
{
    let mut i: usize = 0;
    proof {
        assert(a@.skip(0) =~= a@);
        assert(b@.skip(0) =~= b@);
    }
    while i < a.len() && i < b.len() && a[i] == b[i]
        invariant
            i <= a@.len(),
            i <= b@.len(),
            bytes_before(a@, b@) == bytes_before(a@.skip(i as int), b@.skip(i as int)),
        decreases a@.len() - i,
    {
        proof {
            assert(a@.skip(i as int).drop_first() =~= a@.skip(i + 1));
            assert(b@.skip(i as int).drop_first() =~= b@.skip(i + 1));
        }
        i += 1;
    }
    if i >= b.len() {
        false
    } else if i >= a.len() {
        true
    } else {
        a[i] < b[i]
    }
}

/// Decides `ahead(sa, a, sb, b)`.
pub fn is_ahead(sa: &[u8], a: &str, sb: &[u8], b: &str) -> (r: bool)
    ensures
        r == ahead(sa@, a@, sb@, b@),
{
    if is_before(sb, sa) {
        true
    } else if is_before(sa, sb) {
        proof {
            lemma_before_irreflexive(sa@);
        }
        false
    } else {
        proof {
            lemma_before_total(sa@, sb@);
        }
        is_before(a.as_bytes(), b.as_bytes())
    }
}

/// Computes the score of `volume` for `key`.
pub fn compute_score(key: &str, volume: &str) -> (digest: [u8; 16])
    ensures
        digest@ == score(key@, volume@),
{
    let mut data: Vec<u8> = Vec::new();
    append_bytes(&mut data, key.as_bytes());
    append_bytes(&mut data, volume.as_bytes());
    assert(data@ =~= encode_utf8(key@) + encode_utf8(volume@));
    md5_compute(data.as_slice())
}

/// Computes the sub-volume bucket of a score.
pub fn compute_subvolume(digest: &[u8; 16], subvolumes: u32) -> (bucket: u32)
    requires
        subvolumes > 0,
    ensures
        bucket == subvolume_index(digest@, subvolumes as nat),
{
    let b0: u32 = digest[12] as u32;
    let b1: u32 = digest[13] as u32;
    let b2: u32 = digest[14] as u32;
    let b3: u32 = digest[15] as u32;
    let word: u32 = b0 * 16777216 + b1 * 65536 + b2 * 256 + b3;
    word % subvolumes
}

impl Ring {
    /// Whether the ring can place keys: there is a sub-volume bucket to
    /// choose from, or no bucket is needed because there is one replica.
    pub open spec fn can_place(&self) -> bool {
        self@.subvolumes > 0 || self@.replicas == 1
    }

    /// The placement that this ring gives `key`.
    pub open spec fn placement_of(&self, key: Seq<char>) -> Seq<Seq<char>> {
        placement(key, self@.volumes, self@.replicas, self@.subvolumes)
    }

    /// A ring over `volumes`, in the order given.
    pub fn new(volumes: Vec<String>, replicas: usize, subvolumes: u32) -> (ring: Self)
        ensures
            ring@ == (RingView {
                volumes: volumes.deep_view(),
                replicas: replicas as nat,
                subvolumes: subvolumes as nat,
            }),
    {
        Ring { volumes, replicas, subvolumes }
    }

    /// The placement of `key` on this ring.
    pub fn get_volume(&self, key: &str) -> (placed: Vec<String>)
        requires
            self.can_place(),
        ensures
            placed.deep_view() == self.placement_of(key@),
            placed@.len() == placement_len(self@.volumes, self@.replicas),
    {
        let ghost all = self.volumes.deep_view();
        let mut names: Vec<String> = Vec::new();
        let mut scores: Vec<[u8; 16]> = Vec::new();
        let mut n: usize = 0;
        proof {
            assert(all.take(0) =~= Seq::empty());
            assert(names.deep_view() =~= ranked(key@, all.take(0)));
        }
        while n < self.volumes.len()
            invariant
                all == self.volumes.deep_view(),
                n <= self.volumes@.len(),
                names@.len() == n,
                scores@.len() == n,
                names.deep_view() == ranked(key@, all.take(n as int)),
                forall|j: int| 0 <= j < n ==> (#[trigger] scores@[j])@ == score(key@, names@[j]@),
            decreases self.volumes@.len() - n,
        {
            let volume = &self.volumes[n];
            let digest = compute_score(key, volume.as_str());
            let ghost ranking = names.deep_view();
            let mut p: usize = 0;
            while p < names.len() && !is_ahead(
                digest.as_slice(),
                volume.as_str(),
                scores[p].as_slice(),
                names[p].as_str(),
            )
                invariant
                    p <= names@.len(),
                    names@.len() == n,
                    scores@.len() == n,
                    ranking == names.deep_view(),
                    digest@ == score(key@, volume@),
                    forall|j: int|
                        0 <= j < n ==> (#[trigger] scores@[j])@ == score(key@, names@[j]@),
                    forall|j: int| 0 <= j < p ==> !outranks(key@, volume@, #[trigger] ranking[j]),
                decreases names@.len() - p,
            {
                p += 1;
            }
            proof {
                lemma_insert_position(key@, ranking, volume@, p as int);
                assert(all.take(n + 1).drop_last() =~= all.take(n as int));
                assert(all.take(n + 1).last() == volume@);
            }
            names.insert(p, volume.clone());
            scores.insert(p, digest);
            n += 1;
            proof {
                assert(names.deep_view() =~= ranking.insert(p as int, volume@));
            }
        }
        proof {
            assert(all.take(n as int) =~= all);
            lemma_ranked_len(key@, all);
        }
        let count = if self.replicas < names.len() {
            self.replicas
        } else {
            names.len()
        };
        let mut placed: Vec<String> = Vec::new();
        let mut k: usize = 0;
        while k < count
            invariant
                k <= count <= names@.len(),
                names.deep_view() == ranked(key@, all),
                all == self@.volumes,
                all.len() == names@.len(),
                count == placement_len(all, self.replicas as nat),
                self.can_place(),
                scores@.len() == names@.len(),
                forall|j: int|
                    0 <= j < names@.len() ==> (#[trigger] scores@[j])@ == score(key@, names@[j]@),
                placed@.len() == k,
                forall|j: int|
                    0 <= j < k ==> (#[trigger] placed@[j])@ == placement(
                        key@,
                        all,
                        self.replicas as nat,
                        self.subvolumes as nat,
                    )[j],
            decreases count - k,
        {
            let mut entry = names[k].clone();
            proof {
                assert(names.deep_view()[k as int] == names@[k as int]@);
            }
            if self.replicas != 1 {
                let bucket = compute_subvolume(&scores[k], self.subvolumes);
                entry.append("/sv");
                let digits = to_upper_hex_padded(bucket);
                entry.append(digits.as_str());
                proof {
                    reveal_strlit("/sv");
                    assert("/sv"@ =~= seq!['/', 's', 'v']);
                    assert(entry@ =~= names@[k as int]@ + subvolume_suffix(
                        score(key@, names@[k as int]@),
                        self.subvolumes as nat,
                    ));
                }
            }
            placed.push(entry);
            k += 1;
        }
        proof {
            assert(placed.deep_view() =~= placement(
                key@,
                self@.volumes,
                self@.replicas,
                self@.subvolumes,
            ));
        }
        placed
    }
}

/// Whether no entry of a ranking is outranked by a later one.
pub open spec fn is_ranking(key: Seq<char>, ranking: Seq<Seq<char>>) -> bool {
    forall|i: int, j: int|
        0 <= i < j < ranking.len() ==> !outranks(key, #[trigger] ranking[j], #[trigger] ranking[i])
}

/// Placement is a function of the key and the ring's configuration alone:
/// rings configured alike place every key alike.
pub proof fn law_placement_deterministic(a: Ring, b: Ring, key: Seq<char>)
    requires
        a@ == b@,
    ensures
        a.placement_of(key) == b.placement_of(key),
{
}

/// Appending a volume at the tail of the list leaves the best-ranked volume
/// of a key in place, whenever that volume outranks the new one; so the first
/// entry of the key's placement stays as it was.
pub proof fn law_tail_growth_keeps_top(
    key: Seq<char>,
    volumes: Seq<Seq<char>>,
    added: Seq<char>,
    replicas: nat,
    subvolumes: nat,
)
    requires
        volumes.len() > 0,
        replicas >= 1,
        outranks(key, ranked(key, volumes)[0], added),
    ensures
        ranked(key, volumes.push(added))[0] == ranked(key, volumes)[0],
        placement(key, volumes.push(added), replicas, subvolumes)[0] == placement(
            key,
            volumes,
            replicas,
            subvolumes,
        )[0],
{
    let before = ranked(key, volumes);
    lemma_ranked_len(key, volumes);
    lemma_outranks_asymmetric(key, before[0], added);
    assert(volumes.push(added).drop_last() =~= volumes);
    assert(ranked(key, volumes.push(added)) == insert_ranked(key, before, added));
}

/// The ranking of a volume list is in rank order: no entry is outranked by
/// a later one.
pub proof fn law_ranked_in_order(key: Seq<char>, volumes: Seq<Seq<char>>)
    ensures
        is_ranking(key, ranked(key, volumes)),
    decreases volumes.len(),
{
    if volumes.len() > 0 {
        let before = ranked(key, volumes.drop_last());
        let added = volumes.last();
        law_ranked_in_order(key, volumes.drop_last());
        let p = lemma_position_exists(key, before, added);
        lemma_insert_position(key, before, added, p);
        let after = before.insert(p, added);
        assert forall|i: int, j: int| 0 <= i < j < after.len() implies !outranks(
            key,
            #[trigger] after[j],
            #[trigger] after[i],
        ) by {
            if i == p {
                lemma_outranks_asymmetric(key, added, before[p]);
                if j - 1 > p && outranks(key, before[j - 1], added) {
                    lemma_outranks_transitive(key, before[j - 1], added, before[p]);
                }
            }
        }
    }
}

/// The ranking of a volume list holds the volumes of the list, each as often
/// as the list does.
pub proof fn law_ranked_is_permutation(key: Seq<char>, volumes: Seq<Seq<char>>)
    ensures
        ranked(key, volumes).to_multiset() == volumes.to_multiset(),
    decreases volumes.len(),
{
    if volumes.len() == 0 {
        assert(ranked(key, volumes) =~= volumes);
    } else {
        let before = ranked(key, volumes.drop_last());
        let added = volumes.last();
        law_ranked_is_permutation(key, volumes.drop_last());
        let p = lemma_position_exists(key, before, added);
        lemma_insert_position(key, before, added, p);
        to_multiset_insert(before, p, added);
        to_multiset_build(volumes.drop_last(), added);
        assert(volumes.drop_last().push(added) =~= volumes);
    }
}

/// There is one way to rank a volume list: two sequences that hold the same
/// volumes, each as often as the other does, and that are both in rank
/// order, are equal. So the ranking of a volume list is the list sorted by
/// score, greatest first, and by name where scores are equal; the order in
/// which the list names its volumes does not matter.
pub proof fn law_ranking_is_unique(key: Seq<char>, a: Seq<Seq<char>>, b: Seq<Seq<char>>)
    requires
        is_ranking(key, a),
        is_ranking(key, b),
        a.to_multiset() == b.to_multiset(),
    ensures
        a == b,
    decreases a.len(),
{
    to_multiset_len(a);
    to_multiset_len(b);
    if a.len() > 0 {
        to_multiset_contains(a, a[0]);
        to_multiset_contains(a, b[0]);
        to_multiset_contains(b, a[0]);
        to_multiset_contains(b, b[0]);
        assert(a.contains(a[0]));
        assert(b.contains(b[0]));
        let i = choose|i: int| 0 <= i < a.len() && a[i] == b[0];
        let j = choose|j: int| 0 <= j < b.len() && b[j] == a[0];
        if a[0] != b[0] {
            assert(!outranks(key, a[i], a[0]));
            assert(!outranks(key, b[j], b[0]));
            lemma_outranks_total(key, a[0], b[0]);
        }
        let rest_a = a.drop_first();
        let rest_b = b.drop_first();
        to_multiset_remove(a, 0);
        to_multiset_remove(b, 0);
        assert(rest_a =~= a.remove(0));
        assert(rest_b =~= b.remove(0));
        assert forall|p: int, q: int| 0 <= p < q < rest_a.len() implies !outranks(
            key,
            #[trigger] rest_a[q],
            #[trigger] rest_a[p],
        ) by {
            assert(rest_a[q] == a[q + 1] && rest_a[p] == a[p + 1]);
        }
        assert forall|p: int, q: int| 0 <= p < q < rest_b.len() implies !outranks(
            key,
            #[trigger] rest_b[q],
            #[trigger] rest_b[p],
        ) by {
            assert(rest_b[q] == b[q + 1] && rest_b[p] == b[p + 1]);
        }
        law_ranking_is_unique(key, rest_a, rest_b);
        assert(a =~= seq![a[0]] + rest_a);
        assert(b =~= seq![b[0]] + rest_b);
    } else {
        assert(a =~= b);
    }
}

/// Of two different volumes one outranks the other.
pub proof fn lemma_outranks_total(key: Seq<char>, a: Seq<char>, b: Seq<char>)
    requires
        !outranks(key, a, b),
        !outranks(key, b, a),
    ensures
        a == b,
{
    lemma_before_total(score(key, a), score(key, b));
    lemma_before_total(encode_utf8(a), encode_utf8(b));
    encode_utf8_decode_utf8(a);
    encode_utf8_decode_utf8(b);
}

/// Finds where a volume enters a ranking: behind every entry that it does
/// not outrank, in front of the first one that it does.
pub proof fn lemma_position_exists(
    key: Seq<char>,
    ranking: Seq<Seq<char>>,
    volume: Seq<char>,
) -> (p: int)
    ensures
        0 <= p <= ranking.len(),
        forall|j: int| 0 <= j < p ==> !outranks(key, volume, #[trigger] ranking[j]),
        p < ranking.len() ==> outranks(key, volume, ranking[p]),
    decreases ranking.len(),
{
    if ranking.len() == 0 || outranks(key, volume, ranking[0]) {
        0
    } else {
        let rest = ranking.drop_first();
        let q = lemma_position_exists(key, rest, volume);
        assert forall|j: int| 0 <= j < q + 1 implies !outranks(
            key,
            volume,
            #[trigger] ranking[j],
        ) by {
            if j > 0 {
                assert(ranking[j] == rest[j - 1]);
            }
        }
        q + 1
    }
}

/// Of two volumes at most one outranks the other.
pub proof fn lemma_outranks_asymmetric(key: Seq<char>, a: Seq<char>, b: Seq<char>)
    requires
        outranks(key, a, b),
    ensures
        !outranks(key, b, a),
{
    let sa = score(key, a);
    let sb = score(key, b);
    lemma_before_irreflexive(sa);
    if bytes_before(sb, sa) {
        lemma_before_asymmetric(sb, sa);
    } else {
        lemma_before_asymmetric(encode_utf8(a), encode_utf8(b));
    }
}

/// Outranking is transitive.
pub proof fn lemma_outranks_transitive(key: Seq<char>, a: Seq<char>, b: Seq<char>, c: Seq<char>)
    requires
        outranks(key, a, b),
        outranks(key, b, c),
    ensures
        outranks(key, a, c),
{
    let sa = score(key, a);
    let sb = score(key, b);
    let sc = score(key, c);
    if bytes_before(sb, sa) && bytes_before(sc, sb) {
        lemma_before_transitive(sc, sb, sa);
    } else if sa == sb && sb == sc {
        lemma_before_transitive(encode_utf8(a), encode_utf8(b), encode_utf8(c));
    }
}

/// No byte string comes before itself.
pub proof fn lemma_before_irreflexive(a: Seq<u8>)
    ensures
        !bytes_before(a, a),
    decreases a.len(),
{
    if a.len() > 0 {
        lemma_before_irreflexive(a.drop_first());
    }
}

/// Of two byte strings at most one comes before the other.
pub proof fn lemma_before_asymmetric(a: Seq<u8>, b: Seq<u8>)
    requires
        bytes_before(a, b),
    ensures
        !bytes_before(b, a),
    decreases a.len(),
{
    if a.len() > 0 && b.len() > 0 && a[0] == b[0] {
        lemma_before_asymmetric(a.drop_first(), b.drop_first());
    }
}

/// Two byte strings of which neither comes before the other are equal.
pub proof fn lemma_before_total(a: Seq<u8>, b: Seq<u8>)
    requires
        !bytes_before(a, b),
        !bytes_before(b, a),
    ensures
        a == b,
    decreases a.len(),
{
    if a.len() > 0 && b.len() > 0 {
        lemma_before_total(a.drop_first(), b.drop_first());
        assert(a =~= seq![a[0]] + a.drop_first());
        assert(b =~= seq![b[0]] + b.drop_first());
    } else {
        assert(a =~= b);
    }
}

/// The order on byte strings is transitive.
pub proof fn lemma_before_transitive(a: Seq<u8>, b: Seq<u8>, c: Seq<u8>)
    requires
        bytes_before(a, b),
        bytes_before(b, c),
    ensures
        bytes_before(a, c),
    decreases a.len(),
{
    if a.len() > 0 && b.len() > 0 && c.len() > 0 && a[0] == b[0] && b[0] == c[0] {
        lemma_before_transitive(a.drop_first(), b.drop_first(), c.drop_first());
    }
}

/// Inserting in front of the first outranked entry is what `insert_ranked`
/// does.
pub proof fn lemma_insert_position(
    key: Seq<char>,
    ranking: Seq<Seq<char>>,
    volume: Seq<char>,
    p: int,
)
    requires
        0 <= p <= ranking.len(),
        forall|j: int| 0 <= j < p ==> !outranks(key, volume, #[trigger] ranking[j]),
        p < ranking.len() ==> outranks(key, volume, ranking[p]),
    ensures
        insert_ranked(key, ranking, volume) == ranking.insert(p, volume),
    decreases ranking.len(),
{
    if ranking.len() == 0 {
        assert(ranking.insert(p, volume) =~= seq![volume]);
    } else if p == 0 {
        assert(ranking.insert(p, volume) =~= seq![volume] + ranking);
    } else {
        let rest = ranking.drop_first();
        assert forall|j: int| 0 <= j < p - 1 implies !outranks(key, volume, #[trigger] rest[j]) by {
            assert(rest[j] == ranking[j + 1]);
        }
        lemma_insert_position(key, rest, volume, p - 1);
        assert(ranking.insert(p, volume) =~= seq![ranking[0]] + rest.insert(p - 1, volume));
    }
}

/// Inserting adds exactly one entry.
pub proof fn lemma_insert_ranked_len(key: Seq<char>, ranking: Seq<Seq<char>>, volume: Seq<char>)
    ensures
        insert_ranked(key, ranking, volume).len() == ranking.len() + 1,
    decreases ranking.len(),
{
    if ranking.len() > 0 && !outranks(key, volume, ranking[0]) {
        lemma_insert_ranked_len(key, ranking.drop_first(), volume);
    }
}

/// A ranking has as many entries as there are volumes.
pub proof fn lemma_ranked_len(key: Seq<char>, volumes: Seq<Seq<char>>)
    ensures
        ranked(key, volumes).len() == volumes.len(),
    decreases volumes.len(),
{
    if volumes.len() > 0 {
        lemma_ranked_len(key, volumes.drop_last());
        lemma_insert_ranked_len(key, ranked(key, volumes.drop_last()), volumes.last());
    }
}

} // verus!
