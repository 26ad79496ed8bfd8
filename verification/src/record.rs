//! The durable per-key record, its binary form, and the keys and paths that
//! are derived from a user key.

use vstd::prelude::*;
use vstd::bytes::*;
use vstd::slice::*;
use vstd::string::*;
use vstd::utf8::*;
use crate::digest::append_bytes;
use crate::digest::lower_hex_byte;
use crate::digest::md5_compute;
use crate::digest::md5_digest;
use crate::digest::push_lower_hex_byte;

verus! {

/// Lifecycle stage of a record.
#[derive(Debug, Clone, Copy, PartialEq, Eq, Structural)]
pub enum Deleted {
    /// Live: the payload exists on the record's volumes.
    No,
    /// Logically deleted, or a write that failed part-way.
    Soft,
    /// Tombstone after the payload was unlinked.
    Hard,
    /// A write has started and its outcome is unknown.
    Init,
}

/// Why a byte string is not the binary form of a record.
#[derive(Debug, Clone, Copy, PartialEq, Eq, Structural)]
pub enum DecodeError {
    /// The bytes end inside a field.
    UnexpectedEnd,
    /// The status tag is none of the four known ones.
    InvalidStatus,
    /// A text field is not UTF-8.
    InvalidUtf8,
    /// Bytes follow the last field.
    TrailingBytes,
}

/// What a record holds.
pub struct RecordView {
    pub deleted: Deleted,
    pub hash: Seq<char>,
    pub read_volumes: Seq<Seq<char>>,
}

/// The per-key value of the index: status, payload checksum, and the
/// volumes that the payload was written to.
#[derive(Debug, PartialEq, Eq)]
pub struct Record {
    deleted: Deleted,
    hash: String,
    read_volumes: Vec<String>,
}

impl View for Record {
    type V = RecordView;

    closed spec fn view(&self) -> RecordView {
        RecordView {
            deleted: self.deleted,
            hash: self.hash@,
            read_volumes: self.read_volumes.deep_view(),
        }
    }
}

/// The record of a key that was never seen.
pub open spec fn default_record() -> RecordView {
    RecordView { deleted: Deleted::Init, hash: Seq::empty(), read_volumes: Seq::empty() }
}

/// The tag that stands for a status in the binary form.
pub open spec fn status_tag(deleted: Deleted) -> u32 {
    match deleted {
        Deleted::No => 0,
        Deleted::Soft => 1,
        Deleted::Hard => 2,
        Deleted::Init => 3,
    }
}

/// The status that a tag stands for, if any.
pub open spec fn status_of_tag(tag: u32) -> Option<Deleted> {
    if tag == 0 {
        Some(Deleted::No)
    } else if tag == 1 {
        Some(Deleted::Soft)
    } else if tag == 2 {
        Some(Deleted::Hard)
    } else if tag == 3 {
        Some(Deleted::Init)
    } else {
        None
    }
}

/// Binary form of a text: its length in bytes as eight little-endian bytes,
/// then its UTF-8 bytes.
pub open spec fn encode_text(text: Seq<char>) -> Seq<u8> {
    spec_u64_to_le_bytes(encode_utf8(text).len() as u64) + encode_utf8(text)
}

/// Binary forms of several texts, one after the other.
pub open spec fn encode_texts(texts: Seq<Seq<char>>) -> Seq<u8>
    decreases texts.len(),
{
    if texts.len() == 0 {
        Seq::empty()
    } else {
        encode_text(texts[0]) + encode_texts(texts.drop_first())
    }
}

/// Binary form of a record: the status tag as four little-endian bytes, the
/// hash as a text, the number of volumes as eight little-endian bytes, and
/// each volume as a text.
pub open spec fn encode_record(record: RecordView) -> Seq<u8> {
    spec_u32_to_le_bytes(status_tag(record.deleted)) + encode_text(record.hash)
        + spec_u64_to_le_bytes(record.read_volumes.len() as u64) + encode_texts(
        record.read_volumes,
    )
}

/// Whether a text's length fits the eight-byte length field.
pub open spec fn text_fits(text: Seq<char>) -> bool {
    encode_utf8(text).len() <= u64::MAX
}

/// Whether every length in a record fits its eight-byte field. Every record
/// held in memory does.
pub open spec fn encodable(record: RecordView) -> bool {
    &&& text_fits(record.hash)
    &&& record.read_volumes.len() <= u64::MAX
    &&& forall|i: int| 0 <= i < record.read_volumes.len() ==> text_fits(#[trigger] record.read_volumes[i])
}

/// Reads one text off the front of `bytes`: the text and the bytes that
/// follow it.
pub open spec fn decode_text(bytes: Seq<u8>) -> Result<(Seq<char>, Seq<u8>), DecodeError> {
    if bytes.len() < 8 {
        Err(DecodeError::UnexpectedEnd)
    } else {
        let len = spec_u64_from_le_bytes(bytes.take(8)) as int;
        let rest = bytes.skip(8);
        if rest.len() < len {
            Err(DecodeError::UnexpectedEnd)
        } else if !valid_utf8(rest.take(len)) {
            Err(DecodeError::InvalidUtf8)
        } else {
            Ok((decode_utf8(rest.take(len)), rest.skip(len)))
        }
    }
}

/// A decoding result with the texts `done` put in front of it.
pub open spec fn after_texts(
    done: Seq<Seq<char>>,
    more: Result<(Seq<Seq<char>>, Seq<u8>), DecodeError>,
) -> Result<(Seq<Seq<char>>, Seq<u8>), DecodeError> {
    match more {
        Ok((texts, rest)) => Ok((done + texts, rest)),
        Err(e) => Err(e),
    }
}

/// Reads `count` texts off the front of `bytes`.
pub open spec fn decode_texts(bytes: Seq<u8>, count: nat) -> Result<
    (Seq<Seq<char>>, Seq<u8>),
    DecodeError,
>
    decreases count,
{
    if count == 0 {
        Ok((Seq::empty(), bytes))
    } else {
        match decode_text(bytes) {
            Err(e) => Err(e),
            Ok((text, rest)) => after_texts(seq![text], decode_texts(rest, (count - 1) as nat)),
        }
    }
}

/// The volume list of a record, read off `bytes`: the count, then the texts,
/// then nothing more.
pub open spec fn decode_volumes(bytes: Seq<u8>) -> Result<Seq<Seq<char>>, DecodeError> {
    if bytes.len() < 8 {
        Err(DecodeError::UnexpectedEnd)
    } else {
        match decode_texts(bytes.skip(8), spec_u64_from_le_bytes(bytes.take(8)) as nat) {
            Err(e) => Err(e),
            Ok((texts, rest)) => if rest.len() > 0 {
                Err(DecodeError::TrailingBytes)
            } else {
                Ok(texts)
            },
        }
    }
}

/// The record that `bytes` is the binary form of, or the first reason why it
/// is none.
pub open spec fn decode_record(bytes: Seq<u8>) -> Result<RecordView, DecodeError> {
    if bytes.len() < 4 {
        Err(DecodeError::UnexpectedEnd)
    } else {
        match status_of_tag(spec_u32_from_le_bytes(bytes.take(4))) {
            None => Err(DecodeError::InvalidStatus),
            Some(deleted) => match decode_text(bytes.skip(4)) {
                Err(e) => Err(e),
                Ok((hash, rest)) => match decode_volumes(rest) {
                    Err(e) => Err(e),
                    Ok(read_volumes) => Ok(RecordView { deleted, hash, read_volumes }),
                },
            },
        }
    }
}

/// Calls `String::from_utf8` on a copy of `bytes`: the text that the bytes
/// encode, or `None` when they are not UTF-8.
#[verifier::external_body]
pub(crate) fn text_from_utf8(bytes: &[u8]) -> (text: Option<String>)
    ensures
        valid_utf8(bytes@) ==> text is Some && text->Some_0@ == decode_utf8(bytes@),
        !valid_utf8(bytes@) ==> text is None,
{
    String::from_utf8(bytes.to_vec()).ok()
}

/// Appends the binary form of `text` to `out`.
pub fn write_text(out: &mut Vec<u8>, text: &str)
    ensures
        final(out)@ == old(out)@ + encode_text(text@),
        text_fits(text@),
{
    let body = text.as_bytes();
    let len = u64_to_le_bytes(body.len() as u64);
    append_bytes(out, len.as_slice());
    append_bytes(out, body);
    assert(out@ =~= old(out)@ + encode_text(text@));
}

/// Reads the text that starts at `pos`: the text and the position behind it.
pub fn read_text(bytes: &[u8], pos: usize) -> (r: Result<(String, usize), DecodeError>)
    requires
        pos <= bytes@.len(),
    ensures
        match decode_text(bytes@.skip(pos as int)) {
            Ok((text, rest)) => r is Ok && r->Ok_0.0@ == text && pos <= r->Ok_0.1 <= bytes@.len()
                && bytes@.skip(r->Ok_0.1 as int) == rest,
            Err(e) => r == Err::<(String, usize), DecodeError>(e),
        },
{
    let ghost tail = bytes@.skip(pos as int);
    if bytes.len() - pos < 8 {
        return Err(DecodeError::UnexpectedEnd);
    }
    let start = pos + 8;
    let len = u64_from_le_bytes(slice_subrange(bytes, pos, start));
    assert(bytes@.subrange(pos as int, start as int) =~= tail.take(8));
    if ((bytes.len() - start) as u64) < len {
        return Err(DecodeError::UnexpectedEnd);
    }
    let end = start + len as usize;
    let body = slice_subrange(bytes, start, end);
    assert(body@ =~= tail.skip(8).take(len as int));
    assert(bytes@.skip(end as int) =~= tail.skip(8).skip(len as int));
    match text_from_utf8(body) {
        None => Err(DecodeError::InvalidUtf8),
        Some(text) => Ok((text, end)),
    }
}

impl Record {
    /// A record with the given status, checksum and volumes.
    pub fn new(deleted: Deleted, hash: String, read_volumes: Vec<String>) -> (record: Self)
        ensures
            record@ == (RecordView {
                deleted,
                hash: hash@,
                read_volumes: read_volumes.deep_view(),
            }),
    {
        Record { deleted, hash, read_volumes }
    }

    /// The lifecycle stage.
    pub fn deleted(&self) -> (deleted: Deleted)
        ensures
            deleted == self@.deleted,
    {
        self.deleted
    }

    /// The payload checksum in lower-case hexadecimal, or the empty text.
    pub fn hash(&self) -> (hash: &str)
        ensures
            hash@ == self@.hash,
    {
        self.hash.as_str()
    }

    /// The volumes that the payload was written to.
    pub fn read_volumes(&self) -> (volumes: &Vec<String>)
        ensures
            volumes.deep_view() == self@.read_volumes,
    {
        &self.read_volumes
    }

    /// The binary form of the record.
    pub fn to_bytes(&self) -> (bytes: Vec<u8>)
        ensures
            bytes@ == encode_record(self@),
            encodable(self@),
    {
        let ghost volumes = self.read_volumes.deep_view();
        let mut out: Vec<u8> = u32_to_le_bytes(
            match self.deleted {
                Deleted::No => 0u32,
                Deleted::Soft => 1u32,
                Deleted::Hard => 2u32,
                Deleted::Init => 3u32,
            },
        );
        write_text(&mut out, self.hash.as_str());
        let count = u64_to_le_bytes(self.read_volumes.len() as u64);
        append_bytes(&mut out, count.as_slice());
        let ghost head = out@;
        let mut i: usize = 0;
        proof {
            assert(volumes.skip(0) =~= volumes);
        }
        while i < self.read_volumes.len()
            invariant
                i <= self.read_volumes@.len(),
                volumes == self.read_volumes.deep_view(),
                head + encode_texts(volumes) == out@ + encode_texts(volumes.skip(i as int)),
                forall|j: int| 0 <= j < i ==> text_fits(#[trigger] volumes[j]),
            decreases self.read_volumes@.len() - i,
        {
            write_text(&mut out, self.read_volumes[i].as_str());
            proof {
                assert(volumes.skip(i as int).drop_first() =~= volumes.skip(i + 1));
                assert(volumes.skip(i as int)[0] == self.read_volumes@[i as int]@);
                assert(out@ + encode_texts(volumes.skip(i + 1)) =~= head + encode_texts(volumes));
            }
            i += 1;
        }
        proof {
            assert(out@ =~= encode_record(self@));
        }
        out
    }

    /// Reads a record from its binary form.
    #[verifier::loop_isolation(false)]
    pub fn from_bytes(bytes: &[u8]) -> (r: Result<Self, DecodeError>)
        ensures
            match r {
                Ok(record) => decode_record(bytes@) == Ok::<RecordView, DecodeError>(record@),
                Err(e) => decode_record(bytes@) == Err::<RecordView, DecodeError>(e),
            },
    {
        if bytes.len() < 4 {
            return Err(DecodeError::UnexpectedEnd);
        }
        let tag = u32_from_le_bytes(slice_subrange(bytes, 0, 4));
        assert(bytes@.subrange(0, 4) =~= bytes@.take(4));
        let deleted = if tag == 0 {
            Deleted::No
        } else if tag == 1 {
            Deleted::Soft
        } else if tag == 2 {
            Deleted::Hard
        } else if tag == 3 {
            Deleted::Init
        } else {
            return Err(DecodeError::InvalidStatus);
        };
        let (hash, after_hash) = match read_text(bytes, 4) {
            Err(e) => {
                return Err(e);
            },
            Ok(found) => found,
        };
        let ghost tail = bytes@.skip(after_hash as int);
        if bytes.len() - after_hash < 8 {
            return Err(DecodeError::UnexpectedEnd);
        }
        let first = after_hash + 8;
        let count = u64_from_le_bytes(slice_subrange(bytes, after_hash, first));
        assert(bytes@.subrange(after_hash as int, first as int) =~= tail.take(8));
        assert(bytes@.skip(first as int) =~= tail.skip(8));
        let mut read_volumes: Vec<String> = Vec::new();
        let mut pos = first;
        let mut k: u64 = 0;
        proof {
            assert(read_volumes.deep_view() =~= Seq::empty());
            lemma_after_nothing(decode_texts(bytes@.skip(pos as int), count as nat));
        }
        while k < count
            invariant
                k <= count,
                first <= pos <= bytes@.len(),
                decode_texts(tail.skip(8), count as nat) == after_texts(
                    read_volumes.deep_view(),
                    decode_texts(bytes@.skip(pos as int), (count - k) as nat),
                ),
            decreases count - k,
        {
            let ghost done = read_volumes.deep_view();
            match read_text(bytes, pos) {
                Err(e) => {
                    return Err(e);
                },
                Ok((text, next)) => {
                    proof {
                        lemma_after_one_more(
                            done,
                            text@,
                            decode_texts(bytes@.skip(next as int), (count - k - 1) as nat),
                        );
                    }
                    read_volumes.push(text);
                    pos = next;
                    proof {
                        assert(read_volumes.deep_view() =~= done.push(text@));
                    }
                },
            }
            k += 1;
        }
        proof {
            assert(read_volumes.deep_view() + Seq::<Seq<char>>::empty()
                =~= read_volumes.deep_view());
        }
        if pos < bytes.len() {
            return Err(DecodeError::TrailingBytes);
        }
        Ok(Record { deleted, hash, read_volumes })
    }
}

impl Default for Record {
    /// The record of a key that was never seen: status `Init`, no checksum,
    /// no volumes.
    fn default() -> (record: Self)
        ensures
            record@ == default_record(),
    {
        let record = Record { deleted: Deleted::Init, hash: String::new(), read_volumes: Vec::new() };
        assert(record@.read_volumes =~= Seq::empty());
        record
    }
}

/// Key under which the index stores a record.
pub type LevelDbKey = i32;

/// Derives an index key from a 32-bit hash: the hash with its top bit masked
/// off, so that the key is never negative.
pub fn leveldb_key_from_hash(hash: u32) -> (key: LevelDbKey)
    ensures
        0 <= key,
        key as u32 == hash & 0x7FFF_FFFF,
{
    let masked: u32 = hash & 0x7FFF_FFFF;
    assert(masked <= 0x7FFF_FFFF) by (bit_vector)
        requires
            masked == hash & 0x7FFF_FFFF,
    ;
    masked as i32
}

/// The 32-bit hash of a byte string under a seed, as the `gxhash` crate
/// computes it.
pub uninterp spec fn gxhash32(data: Seq<u8>, seed: i64) -> u32;

/// Calls `gxhash::gxhash32`. The contract only names the hash: on the
/// processors that the crate supports it is a function of the bytes and the
/// seed alone.
#[verifier::external_body]
pub(crate) fn gxhash32_compute(data: &[u8], seed: i64) -> (hash: u32)
    ensures
        hash == gxhash32(data@, seed),
{
    gxhash::gxhash32(data, seed)
}

/// The hash that the index key of a user key is derived from.
pub open spec fn key_hash(key: Seq<char>) -> u32 {
    gxhash32(encode_utf8(key), 0)
}

/// Derives the index key of a user key: the hash of the key's bytes under
/// seed 0, with its top bit masked off.
pub fn leveldb_key_from_str(key: &str) -> (leveldb_key: LevelDbKey)
    ensures
        0 <= leveldb_key,
        leveldb_key as u32 == key_hash(key@) & 0x7FFF_FFFF,
{
    leveldb_key_from_hash(gxhash32_compute(key.as_bytes(), 0))
}

/// What the index stores for a record: the index key of the user key, and
/// the record's binary form.
pub fn put_record(key: &str, record: &Record) -> (entry: (LevelDbKey, Vec<u8>))
    ensures
        0 <= entry.0,
        entry.0 as u32 == key_hash(key@) & 0x7FFF_FFFF,
        entry.1@ == encode_record(record@),
{
    (leveldb_key_from_str(key), record.to_bytes())
}

/// What a lookup yields, given what the index holds under the key: no
/// record where it holds nothing, else the record that the bytes decode to.
pub fn get_record(stored: Option<Vec<u8>>) -> (r: Result<Option<Record>, DecodeError>)
    ensures
        match stored {
            None => r is Ok && r->Ok_0 is None,
            Some(bytes) => match decode_record(bytes@) {
                Ok(record) => r is Ok && r->Ok_0 is Some && r->Ok_0->Some_0@ == record,
                Err(e) => r == Err::<Option<Record>, DecodeError>(e),
            },
        },
{
    match stored {
        None => Ok(None),
        Some(bytes) => match Record::from_bytes(bytes.as_slice()) {
            Ok(record) => Ok(Some(record)),
            Err(e) => Err(e),
        },
    }
}

/// As `get_record`, with the default record in place of none.
pub fn get_record_or_default(stored: Option<Vec<u8>>) -> (r: Result<Record, DecodeError>)
    ensures
        match stored {
            None => r is Ok && r->Ok_0@ == default_record(),
            Some(bytes) => match decode_record(bytes@) {
                Ok(record) => r is Ok && r->Ok_0@ == record,
                Err(e) => r == Err::<Record, DecodeError>(e),
            },
        },
{
    match get_record(stored) {
        Ok(Some(record)) => Ok(record),
        Ok(None) => Ok(Record::default()),
        Err(e) => Err(e),
    }
}

/// The URL-safe, padded base64 text of a byte string, as the `base64` crate
/// writes it.
pub uninterp spec fn base64_url(data: Seq<u8>) -> Seq<char>;

/// Whether a byte string is short enough for its base64 text to have a
/// length that fits the machine word.
pub open spec fn base64_fits(data: Seq<u8>) -> bool {
    data.len() / 3 < usize::MAX / 4
}

/// Calls `Engine::encode` of the `base64` crate on its `URL_SAFE` engine.
/// The contract only names the text. The call panics where the length of
/// the text overflows, which the precondition rules out.
#[verifier::external_body]
pub(crate) fn base64_url_encode(data: &[u8]) -> (text: String)
    requires
        base64_fits(data@),
    ensures
        text@ == base64_url(data@),
{
    base64::Engine::encode(&base64::engine::general_purpose::URL_SAFE, data)
}

/// Whether a key is short enough to be given a remote path.
pub open spec fn key_fits(key: Seq<char>) -> bool {
    base64_fits(encode_utf8(key))
}

/// Decides whether a key is short enough to be given a remote path.
pub fn key_is_short_enough(key: &str) -> (ok: bool)
    ensures
        ok == key_fits(key@),
{
    key.as_bytes().len() / 3 < usize::MAX / 4
}

/// The path of a key's payload on every volume: two directory levels named
/// by the first two bytes of the key's MD5 digest, then the key in base64.
pub open spec fn remote_path(key: Seq<char>) -> Seq<char> {
    seq!['/'] + lower_hex_byte(md5_digest(encode_utf8(key))[0]) + seq!['/'] + lower_hex_byte(
        md5_digest(encode_utf8(key))[1],
    ) + seq!['/'] + base64_url(encode_utf8(key))
}

/// Computes the remote path of `key`.
pub fn get_remote_path(key: &str) -> (path: String)
    requires
        key_fits(key@),
    ensures
        path@ == remote_path(key@),
{
    let digest = md5_compute(key.as_bytes());
    let name = base64_url_encode(key.as_bytes());
    let mut path = String::new();
    proof {
        reveal_strlit("/");
    }
    path.append("/");
    push_lower_hex_byte(&mut path, digest[0]);
    path.append("/");
    push_lower_hex_byte(&mut path, digest[1]);
    path.append("/");
    path.append(name.as_str());
    assert(path@ =~= remote_path(key@));
    path
}

/// Putting nothing in front of a decoding result leaves it as it is.
pub proof fn lemma_after_nothing(more: Result<(Seq<Seq<char>>, Seq<u8>), DecodeError>)
    ensures
        after_texts(Seq::empty(), more) == more,
{
    match more {
        Ok((texts, rest)) => {
            assert(Seq::<Seq<char>>::empty() + texts =~= texts);
        },
        Err(e) => {},
    }
}

/// Putting `done` and then one more text in front of a decoding result is
/// putting all of them in front at once.
pub proof fn lemma_after_one_more(
    done: Seq<Seq<char>>,
    text: Seq<char>,
    more: Result<(Seq<Seq<char>>, Seq<u8>), DecodeError>,
)
    ensures
        after_texts(done, after_texts(seq![text], more)) == after_texts(done.push(text), more),
{
    match more {
        Ok((texts, rest)) => {
            assert(done + (seq![text] + texts) =~= done.push(text) + texts);
        },
        Err(e) => {},
    }
}

/// Reading a text back from its binary form gives the text, and leaves
/// what followed it.
pub proof fn lemma_decode_encoded_text(text: Seq<char>, tail: Seq<u8>)
    requires
        text_fits(text),
    ensures
        decode_text(encode_text(text) + tail) == Ok::<(Seq<char>, Seq<u8>), DecodeError>(
            (text, tail),
        ),
{
    lemma_auto_spec_u64_to_from_le_bytes();
    encode_utf8_valid_utf8(text);
    encode_utf8_decode_utf8(text);
    let body = encode_utf8(text);
    let all = encode_text(text) + tail;
    assert(all.take(8) =~= spec_u64_to_le_bytes(body.len() as u64));
    assert(all.skip(8).take(body.len() as int) =~= body);
    assert(all.skip(8).skip(body.len() as int) =~= tail);
}

/// Reading texts back from their binary forms gives the texts, and leaves
/// what followed them.
pub proof fn lemma_decode_encoded_texts(texts: Seq<Seq<char>>, tail: Seq<u8>)
    requires
        forall|i: int| 0 <= i < texts.len() ==> text_fits(#[trigger] texts[i]),
    ensures
        decode_texts(encode_texts(texts) + tail, texts.len()) == Ok::<
            (Seq<Seq<char>>, Seq<u8>),
            DecodeError,
        >((texts, tail)),
    decreases texts.len(),
{
    let bytes = encode_texts(texts) + tail;
    if texts.len() > 0 {
        let rest = texts.drop_first();
        let after_first = encode_texts(rest) + tail;
        lemma_decode_encoded_text(texts[0], after_first);
        assert(bytes =~= encode_text(texts[0]) + after_first);
        assert forall|i: int| 0 <= i < rest.len() implies text_fits(#[trigger] rest[i]) by {
            assert(rest[i] == texts[i + 1]);
        }
        lemma_decode_encoded_texts(rest, tail);
        assert(seq![texts[0]] + rest =~= texts);
        assert(decode_text(bytes) == Ok::<(Seq<char>, Seq<u8>), DecodeError>(
            (texts[0], after_first),
        ));
        assert(decode_texts(after_first, (texts.len() - 1) as nat) == Ok::<
            (Seq<Seq<char>>, Seq<u8>),
            DecodeError,
        >((rest, tail)));
    } else {
        assert(bytes =~= tail);
        assert(texts =~= Seq::<Seq<char>>::empty());
    }
}

/// A text that was read off some bytes is written back as those bytes.
pub proof fn lemma_encode_decoded_text(bytes: Seq<u8>, text: Seq<char>, rest: Seq<u8>)
    requires
        decode_text(bytes) == Ok::<(Seq<char>, Seq<u8>), DecodeError>((text, rest)),
    ensures
        bytes == encode_text(text) + rest,
        text_fits(text),
{
    lemma_auto_spec_u64_to_from_le_bytes();
    let len = spec_u64_from_le_bytes(bytes.take(8));
    let body = bytes.skip(8).take(len as int);
    decode_utf8_encode_utf8(body);
    assert(bytes =~= bytes.take(8) + body + rest);
}

/// Texts that were read off some bytes are written back as those bytes.
pub proof fn lemma_encode_decoded_texts(
    bytes: Seq<u8>,
    count: nat,
    texts: Seq<Seq<char>>,
    rest: Seq<u8>,
)
    requires
        decode_texts(bytes, count) == Ok::<(Seq<Seq<char>>, Seq<u8>), DecodeError>((texts, rest)),
    ensures
        bytes == encode_texts(texts) + rest,
        texts.len() == count,
        forall|i: int| 0 <= i < texts.len() ==> text_fits(#[trigger] texts[i]),
    decreases count,
{
    if count == 0 {
        assert(bytes =~= encode_texts(texts) + rest);
    } else {
        let (first, after_first) = decode_text(bytes)->Ok_0;
        let (others, after_others) = decode_texts(after_first, (count - 1) as nat)->Ok_0;
        lemma_encode_decoded_text(bytes, first, after_first);
        lemma_encode_decoded_texts(after_first, (count - 1) as nat, others, after_others);
        assert(texts =~= seq![first] + others);
        assert(texts.drop_first() =~= others);
        assert(bytes =~= encode_texts(texts) + rest);
    }
}

/// Decoding the binary form of a record gives the record back.
pub proof fn law_decode_encode(record: RecordView)
    requires
        encodable(record),
    ensures
        decode_record(encode_record(record)) == Ok::<RecordView, DecodeError>(record),
{
    lemma_auto_spec_u32_to_from_le_bytes();
    lemma_auto_spec_u64_to_from_le_bytes();
    let bytes = encode_record(record);
    let tag = spec_u32_to_le_bytes(status_tag(record.deleted));
    let count = spec_u64_to_le_bytes(record.read_volumes.len() as u64);
    let volumes = encode_texts(record.read_volumes);
    assert(bytes.take(4) =~= tag);
    assert(bytes.skip(4) =~= encode_text(record.hash) + (count + volumes));
    lemma_decode_encoded_text(record.hash, count + volumes);
    assert((count + volumes).take(8) =~= count);
    assert((count + volumes).skip(8) =~= volumes + Seq::<u8>::empty());
    lemma_decode_encoded_texts(record.read_volumes, Seq::empty());
}

/// A volume list that was read off some bytes is written back as those
/// bytes.
pub proof fn lemma_encode_decoded_volumes(bytes: Seq<u8>, volumes: Seq<Seq<char>>)
    requires
        decode_volumes(bytes) == Ok::<Seq<Seq<char>>, DecodeError>(volumes),
    ensures
        bytes == spec_u64_to_le_bytes(volumes.len() as u64) + encode_texts(volumes),
        volumes.len() <= u64::MAX,
        forall|i: int| 0 <= i < volumes.len() ==> text_fits(#[trigger] volumes[i]),
{
    lemma_auto_spec_u64_to_from_le_bytes();
    let count = spec_u64_from_le_bytes(bytes.take(8));
    let (texts, rest) = decode_texts(bytes.skip(8), count as nat)->Ok_0;
    lemma_encode_decoded_texts(bytes.skip(8), count as nat, texts, rest);
    assert(rest =~= Seq::<u8>::empty());
    assert(bytes.skip(8) =~= encode_texts(volumes));
    assert(bytes =~= bytes.take(8) + bytes.skip(8));
}

/// Encoding the record that some bytes decode to gives those bytes back: a
/// byte string decodes only if it is exactly the binary form of a record.
pub proof fn law_encode_decode(bytes: Seq<u8>, record: RecordView)
    requires
        decode_record(bytes) == Ok::<RecordView, DecodeError>(record),
    ensures
        encode_record(record) == bytes,
        encodable(record),
{
    lemma_auto_spec_u32_to_from_le_bytes();
    let (hash, after_hash) = decode_text(bytes.skip(4))->Ok_0;
    lemma_encode_decoded_text(bytes.skip(4), hash, after_hash);
    lemma_encode_decoded_volumes(after_hash, record.read_volumes);
    assert(spec_u32_to_le_bytes(status_tag(record.deleted)) == bytes.take(4));
    assert(bytes =~= bytes.take(4) + bytes.skip(4));
    assert(encode_record(record) =~= bytes.take(4) + (encode_text(hash) + after_hash));
}

} // verus!
