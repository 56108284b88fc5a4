use vstd::prelude::*;

pub mod arma_value;
pub mod codec;
pub mod data;
pub mod envelope;
pub mod error;
pub mod json;
pub mod metadata;
pub mod parser;
pub mod text;

use aes_gcm::aead::Aead;
use aes_gcm::KeyInit;

use crate::error::DecodeError;
use vstd::string::StrSliceExecFns;

verus! {

/// Tag naming the purpose of a message; one of a closed set, written on the
/// wire in snake_case.
#[derive(Debug, PartialEq, Eq, Structural, Clone, Copy)]
pub enum Type {
    Connect,
    Disconnect,
    Ping,
    Pong,
    Test,
    Error,
    Resume,
    Pause,
    Init,
    Event,
    Query,
    Arma,
}


/// The models of a list of wire errors.
pub open spec fn error_seq_view(es: Seq<crate::error::Error>) -> Seq<crate::error::ErrorV> {
    Seq::new(
        es.len(),
        |i: int|
            if 0 <= i < es.len() {
                es[i]@
            } else {
                crate::error::ErrorV {
                    error_type: crate::error::ErrorType::Message,
                    error_content: Seq::empty(),
                }
            },
    )
}

/// The addressed unit of the protocol: an identity, a type tag, the peer id
/// used for routing and key selection (present only between the framing
/// layers), a transient session handle that is never serialized, a payload,
/// a context, and accumulated errors.
#[derive(Debug, Clone, PartialEq)]
pub struct Message {
    pub id: String,
    pub message_type: Type,
    pub server_id: Option<Vec<u8>>,
    pub resource_id: Option<i64>,
    pub data: crate::data::Data,
    pub metadata: crate::metadata::Metadata,
    pub errors: Vec<crate::error::Error>,
}

/// Mathematical model of a [`Message`].
pub struct MessageV {
    pub id: Seq<char>,
    pub message_type: Type,
    pub server_id: Option<Seq<u8>>,
    pub resource_id: Option<i64>,
    pub data: crate::data::DataV,
    pub metadata: crate::metadata::MetadataV,
    pub errors: Seq<crate::error::ErrorV>,
}

impl View for Message {
    type V = MessageV;

    open spec fn view(&self) -> MessageV {
        MessageV {
            id: self.id@,
            message_type: self.message_type,
            server_id: match self.server_id {
                Some(ref v) => Some(v@),
                None => None,
            },
            resource_id: self.resource_id,
            data: self.data@,
            metadata: self.metadata@,
            errors: error_seq_view(self.errors@),
        }
    }
}

/// A message is well formed when its id is canonical uuid text and every
/// map in its payload has unique keys.
pub open spec fn wf_message(m: MessageV) -> bool {
    &&& crate::envelope::is_uuid_text(m.id)
    &&& crate::data::wf_data(m.data)
}

/// What the receiving side reconstructs: the same message with the
/// transient session handle unset.
pub open spec fn received_view(m: MessageV) -> MessageV {
    MessageV {
        id: m.id,
        message_type: m.message_type,
        server_id: m.server_id,
        resource_id: None,
        data: m.data,
        metadata: m.metadata,
        errors: m.errors,
    }
}

/// The serialized text of a message.
pub open spec fn message_text(m: MessageV) -> Seq<char> {
    crate::json::render_value(crate::envelope::message_json(m))
}

/// The plaintext bytes of a message: its serialized text in UTF-8.
pub open spec fn spec_message_bytes(m: MessageV) -> Seq<u8> {
    vstd::utf8::encode_utf8(message_text(m))
}

/// The wire layout: one length byte and the peer id, one length byte and
/// the nonce, then the ciphertext with its authentication tag.
pub open spec fn wire_packet(sid: Seq<u8>, nonce: Seq<u8>, ct: Seq<u8>) -> Seq<u8> {
    seq![sid.len() as u8] + sid + seq![nonce.len() as u8] + nonce + ct
}

/// What AES-256-GCM decryption yields for a key, nonce and ciphertext: a
/// function of its arguments alone.
pub uninterp spec fn aead_open(key: Seq<u8>, nonce: Seq<u8>, ct: Seq<u8>) -> Option<Seq<u8>>;

/// What AES-256-GCM encryption yields for a key, nonce and plaintext.
pub uninterp spec fn aead_seal(key: Seq<u8>, nonce: Seq<u8>, pt: Seq<u8>) -> Seq<u8>;

/// Relies on aes_gcm's `Aes256Gcm` with the `Aead` encrypt interface: the
/// ciphertext is a function of key, nonce and plaintext; decrypting it
/// under the same key and nonce yields the plaintext back; a 16-byte
/// authentication tag is appended; and encryption fails only for plaintexts
/// longer than 2^36 - 32 bytes.
#[verifier::external_body]
fn aes_seal(key: &[u8], nonce: &[u8], pt: &[u8]) -> (r: Option<Vec<u8>>)
    requires
        key@.len() >= 32,
        nonce@.len() == 12,
    ensures
        r matches Some(ct) ==> ct@ == aead_seal(key@.subrange(0, 32), nonce@, pt@) && aead_open(
            key@.subrange(0, 32),
            nonce@,
            ct@,
        ) == Some(pt@),
        r matches Some(ct) ==> ct@.len() == pt@.len() + 16,
        pt@.len() <= 0xF_FFFF_FFE0 ==> r is Some,
{
    let cipher = match aes_gcm::Aes256Gcm::new_from_slice(&key[0..32]) {
        Ok(c) => c,
        Err(_) => return None,
    };
    let nonce_arr = aes_gcm::Nonce::<aes_gcm::aead::consts::U12>::try_from(nonce).ok()?;
    cipher.encrypt(&nonce_arr, pt).ok()
}

/// Relies on aes_gcm's `Aes256Gcm` with the `Aead` decrypt interface: the
/// outcome names `aead_open`, failing exactly when authentication fails.
#[verifier::external_body]
fn aes_open(key: &[u8], nonce: &[u8], ct: &[u8]) -> (r: Option<Vec<u8>>)
    requires
        key@.len() >= 32,
        nonce@.len() == 12,
    ensures
        r matches Some(pt) ==> aead_open(key@.subrange(0, 32), nonce@, ct@) == Some(pt@),
        r is None ==> aead_open(key@.subrange(0, 32), nonce@, ct@) is None,
{
    let cipher = match aes_gcm::Aes256Gcm::new_from_slice(&key[0..32]) {
        Ok(c) => c,
        Err(_) => return None,
    };
    let nonce_arr = aes_gcm::Nonce::<aes_gcm::aead::consts::U12>::try_from(nonce).ok()?;
    cipher.decrypt(&nonce_arr, ct).ok()
}

pub assume_specification<T>[ rand::random::<T> ]() -> (r: T)
    where
        rand::distr::StandardUniform: rand::distr::Distribution<T>,
;

/// Relies on uuid's `Uuid::new_v4` and its hyphenated rendering: a fresh
/// random identity in canonical text form.
#[verifier::external_body]
fn fresh_uuid_text() -> (r: String)
    ensures
        crate::envelope::is_uuid_text(r@),
{
    uuid::Uuid::new_v4().to_string()
}

/// Relies on chrono's `Utc::now` with RFC 3339 rendering; the result depends
/// on the clock, so nothing further is promised of it.
#[verifier::external_body]
pub fn current_timestamp_text() -> String {
    chrono::Utc::now().to_rfc3339()
}

#[verifier::external_type_specification]
#[verifier::external_body]
pub struct ExResourceId(message_io::network::ResourceId);

/// Relies on message_io's `ResourceId::adapter_id`; the handle is opaque, so
/// nothing is promised of the value.
#[verifier::external_body]
fn adapter_id_of(resource_id: message_io::network::ResourceId) -> u8 {
    resource_id.adapter_id()
}

/// Relies on `str::from_utf8`: succeeds exactly on valid UTF-8, yielding
/// the text those bytes encode.
#[verifier::external_body]
fn bytes_to_string(v: &[u8]) -> (r: Option<String>)
    ensures
        r matches Some(s) ==> v@ == vstd::utf8::encode_utf8(s@),
        r is None ==> !vstd::utf8::valid_utf8(v@),
{
    match std::str::from_utf8(v) {
        Ok(s) => Some(s.to_owned()),
        Err(_) => None,
    }
}

/// Whether the payload slot is the empty variant (omitted on the wire).
pub fn data_is_empty(data: &crate::data::Data) -> (r: bool)
    ensures
        r == (data@ is Empty),
{
    matches!(data, crate::data::Data::Empty)
}

/// Whether the context slot is the empty variant (omitted on the wire).
pub fn metadata_is_empty(metadata: &crate::metadata::Metadata) -> (r: bool)
    ensures
        r == (metadata@ is Empty),
{
    matches!(metadata, crate::metadata::Metadata::Empty)
}

/// Whether the error list is empty (omitted on the wire).
pub fn errors_is_empty(errors: &[crate::error::Error]) -> (r: bool)
    ensures
        r == (errors@.len() == 0),
{
    errors.len() == 0
}

/// What decrypting and deframing a packet yields: the header is read, the
/// remainder authenticated and decrypted under the first 32 bytes of the
/// key, the plaintext deserialized, and the peer id from the header
/// attached.
pub open spec fn spec_from_bytes(bytes: Seq<u8>, key: Seq<u8>) -> Result<MessageV, DecodeError> {
    if bytes.len() < 1 {
        Err(DecodeError::StructureParse)
    } else {
        let n = bytes[0] as int;
        if 1 + n + 1 > bytes.len() {
            Err(DecodeError::StructureParse)
        } else {
            let sid = bytes.subrange(1, 1 + n);
            let m = bytes[1 + n] as int;
            if 1 + n + 1 + m > bytes.len() {
                Err(DecodeError::StructureParse)
            } else if m != 12 {
                Err(DecodeError::StructureParse)
            } else {
                let nonce = bytes.subrange(1 + n + 1, 1 + n + 1 + m);
                let ct = bytes.subrange(1 + n + 1 + m, bytes.len() as int);
                match aead_open(key.subrange(0, 32), nonce, ct) {
                    None => Err(DecodeError::Crypto),
                    Some(pt) => if !vstd::utf8::valid_utf8(pt) {
                        Err(DecodeError::StructureParse)
                    } else {
                        match crate::json::parse_json(vstd::utf8::decode_utf8(pt)) {
                            None => Err(DecodeError::StructureParse),
                            Some(v) => match crate::envelope::json_to_message(v) {
                                Ok(mv) => Ok(
                                    MessageV {
                                        id: mv.id,
                                        message_type: mv.message_type,
                                        server_id: Some(sid),
                                        resource_id: None,
                                        data: mv.data,
                                        metadata: mv.metadata,
                                        errors: mv.errors,
                                    },
                                ),
                                Err(e) => Err(e),
                            },
                        }
                    },
                }
            }
        }
    }
}

impl Message {
    /// A fresh message of the given type: a new random identity, no peer id,
    /// no session handle, empty payload, empty context, no errors.
    pub fn new(message_type: Type) -> (r: Message)
        ensures
            r@.message_type == message_type,
            crate::envelope::is_uuid_text(r@.id),
            r@.server_id is None,
            r@.resource_id is None,
            r@.data is Empty,
            r@.metadata is Empty,
            r@.errors.len() == 0,
            wf_message(r@),
    {
        let r = Message {
            id: fresh_uuid_text(),
            message_type,
            server_id: None,
            resource_id: None,
            data: crate::data::Data::Empty,
            metadata: crate::metadata::Metadata::Empty,
            errors: Vec::new(),
        };
        proof {
            assert(r@.errors =~= Seq::<crate::error::ErrorV>::empty());
        }
        r
    }

    /// Records the transport session this message arrived on.  The handle is
    /// process-local and never serialized.
    pub fn set_resource(&mut self, resource_id: message_io::network::ResourceId)
        ensures
            final(self)@.resource_id is Some,
            final(self)@ == (MessageV { resource_id: final(self)@.resource_id, ..old(self)@ }),
    {
        self.resource_id = Some(adapter_id_of(resource_id) as i64);
    }

    /// Appends an error to the message.
    pub fn add_error(&mut self, error_type: crate::error::ErrorType, error_message: &str)
        ensures
            final(self)@ == (MessageV {
                errors: old(self)@.errors.push(
                    crate::error::ErrorV {
                        error_type,
                        error_content: error_message@,
                    },
                ),
                ..old(self)@
            }),
    {
        let error = crate::error::Error::new(error_type, error_message.to_owned());
        self.errors.push(error);
        proof {
            assert(error_seq_view(self.errors@) =~= old(self)@.errors.push(
                crate::error::ErrorV { error_type, error_content: error_message@ },
            ));
        }
    }

    /// The peer id of a packet, read from its header without decrypting:
    /// the receiver uses it to select the key before attempting decryption.
    pub fn read_server_id(bytes: &Vec<u8>) -> (r: Result<Vec<u8>, DecodeError>)
        ensures
            match r {
                Ok(sid) => bytes@.len() >= 1 && 1 + bytes@[0] as int <= bytes@.len() && sid@
                    == bytes@.subrange(1, 1 + bytes@[0] as int),
                Err(e) => e == DecodeError::StructureParse && (bytes@.len() < 1 || 1
                    + bytes@[0] as int > bytes@.len()),
            },
    {
        if bytes.len() < 1 {
            return Err(DecodeError::StructureParse);
        }
        let n = bytes[0] as usize;
        if n + 1 > bytes.len() {
            return Err(DecodeError::StructureParse);
        }
        let mut sid: Vec<u8> = Vec::new();
        let mut k: usize = 0;
        while k < n
            invariant
                0 <= k <= n,
                1 + n <= bytes@.len(),
                sid@ == bytes@.subrange(1, 1 + k as int),
            decreases n - k,
        {
            sid.push(bytes[1 + k]);
            proof {
                assert(sid@ =~= bytes@.subrange(1, 1 + (k + 1int)));
            }
            k = k + 1;
        }
        Ok(sid)
    }

    /// Serializes, encrypts and frames this message for the wire.  Fails
    /// with a routing error exactly when no peer id is set (there is
    /// nothing to route or key by), and with a shape error when the peer id
    /// cannot fit the one-byte length prefix; success is owed whenever the
    /// peer id fits and the plaintext is within the cipher's length bound.
    /// On success the packet carries one length byte, the peer id, one
    /// length byte, a fresh 12-byte nonce and the ciphertext with its
    /// 16-byte tag — and it decrypts, under the same key, back to this
    /// message with the session handle cleared: the round trip of the whole
    /// pipeline.
    pub fn as_bytes(&self, key: &[u8]) -> (r: Result<Vec<u8>, DecodeError>)
        requires
            key@.len() >= 32,
        ensures
            self@.server_id is None ==> r == Err::<Vec<u8>, DecodeError>(DecodeError::Routing),
            r == Err::<Vec<u8>, DecodeError>(DecodeError::Routing) ==> self@.server_id is None,
            self@.server_id matches Some(sid) && sid.len() > 255 ==> r == Err::<
                Vec<u8>,
                DecodeError,
            >(DecodeError::Shape),
            self@.server_id matches Some(sid) && sid.len() <= 255 && spec_message_bytes(
                self@,
            ).len() <= 0xF_FFFF_FFE0 ==> r is Ok,
            r matches Ok(p) ==> {
                &&& self@.server_id is Some
                &&& p@.len() == 30 + self@.server_id->0.len() + spec_message_bytes(self@).len()
                &&& exists|nonce: Seq<u8>|
                    nonce.len() == 12 && p@ == wire_packet(
                        self@.server_id->0,
                        nonce,
                        aead_seal(key@.subrange(0, 32), nonce, spec_message_bytes(self@)),
                    )
                &&& wf_message(self@) ==> spec_from_bytes(p@, key@) == Ok::<
                    MessageV,
                    DecodeError,
                >(received_view(self@))
            },
    {
        let sid = match &self.server_id {
            Some(s) => s,
            None => {
                return Err(DecodeError::Routing);
            },
        };
        if sid.len() > 255 {
            return Err(DecodeError::Shape);
        }
        let json = crate::envelope::message_to_json(self);
        let text = crate::json::render_json(&json);
        let pt = text.as_str().as_bytes_vec();
        let mut nonce: Vec<u8> = Vec::new();
        let mut k: usize = 0;
        while k < 12
            invariant
                0 <= k <= 12,
                nonce@.len() == k,
            decreases 12 - k,
        {
            nonce.push(rand::random::<u8>());
            k = k + 1;
        }
        let ct = match aes_seal(key, nonce.as_slice(), pt.as_slice()) {
            Some(ct) => ct,
            None => {
                return Err(DecodeError::Crypto);
            },
        };
        let mut packet: Vec<u8> = Vec::new();
        packet.push(sid.len() as u8);
        let mut k2: usize = 0;
        while k2 < sid.len()
            invariant
                0 <= k2 <= sid@.len() <= 255,
                packet@ == seq![sid@.len() as u8] + sid@.subrange(0, k2 as int),
            decreases sid@.len() - k2,
        {
            packet.push(sid[k2]);
            proof {
                assert(packet@ =~= seq![sid@.len() as u8] + sid@.subrange(0, k2 + 1int));
            }
            k2 = k2 + 1;
        }
        packet.push(12u8);
        let mut k3: usize = 0;
        while k3 < nonce.len()
            invariant
                0 <= k3 <= nonce@.len() == 12,
                sid@.len() <= 255,
                packet@ == seq![sid@.len() as u8] + sid@ + seq![12u8] + nonce@.subrange(
                    0,
                    k3 as int,
                ),
            decreases nonce@.len() - k3,
        {
            packet.push(nonce[k3]);
            proof {
                assert(packet@ =~= seq![sid@.len() as u8] + sid@ + seq![12u8] + nonce@.subrange(
                    0,
                    k3 + 1int,
                ));
            }
            k3 = k3 + 1;
        }
        let mut k4: usize = 0;
        while k4 < ct.len()
            invariant
                0 <= k4 <= ct@.len(),
                sid@.len() <= 255,
                nonce@.len() == 12,
                packet@ == seq![sid@.len() as u8] + sid@ + seq![12u8] + nonce@ + ct@.subrange(
                    0,
                    k4 as int,
                ),
            decreases ct@.len() - k4,
        {
            packet.push(ct[k4]);
            proof {
                assert(packet@ =~= seq![sid@.len() as u8] + sid@ + seq![12u8] + nonce@
                    + ct@.subrange(0, k4 + 1int));
            }
            k4 = k4 + 1;
        }
        proof {
            assert(sid@.subrange(0, sid@.len() as int) =~= sid@);
            assert(nonce@.subrange(0, nonce@.len() as int) =~= nonce@);
            assert(ct@.subrange(0, ct@.len() as int) =~= ct@);
            assert(packet@ =~= wire_packet(sid@, nonce@, ct@));
            assert(pt@ == spec_message_bytes(self@));
            lemma_packet_decodes(self@, key@, sid@, nonce@, ct@, pt@, packet@);
        }
        Ok(packet)
    }

    /// Deframes, authenticates, decrypts and deserializes a packet, then
    /// attaches the peer id from the header as the message's routing
    /// identity.  Any authentication mismatch — tampering or a wrong key —
    /// fails with a crypto error and no partial output.
    pub fn from_bytes(data: Vec<u8>, key: &[u8]) -> (r: Result<Message, DecodeError>)
        requires
            key@.len() >= 32,
        ensures
            match r {
                Ok(m) => spec_from_bytes(data@, key@) == Ok::<MessageV, DecodeError>(m@),
                Err(e) => spec_from_bytes(data@, key@) == Err::<MessageV, DecodeError>(e),
            },
    {
        let sid = match Message::read_server_id(&data) {
            Ok(sid) => sid,
            Err(e) => {
                return Err(e);
            },
        };
        let n = sid.len();
        if 1 + n + 1 > data.len() {
            return Err(DecodeError::StructureParse);
        }
        let m = data[1 + n] as usize;
        if 1 + n + 1 + m > data.len() {
            return Err(DecodeError::StructureParse);
        }
        if m != 12 {
            return Err(DecodeError::StructureParse);
        }
        let mut nonce: Vec<u8> = Vec::new();
        let mut k: usize = 0;
        while k < m
            invariant
                0 <= k <= m,
                1 + n + 1 + m <= data@.len(),
                data@.len() <= usize::MAX,
                nonce@ == data@.subrange(1 + n + 1, 1 + n + 1 + k as int),
            decreases m - k,
        {
            nonce.push(data[1 + n + 1 + k]);
            proof {
                assert(nonce@ =~= data@.subrange(1 + n + 1, 1 + n + 1 + (k + 1int)));
            }
            k = k + 1;
        }
        let mut ct: Vec<u8> = Vec::new();
        let mut k2: usize = 1 + n + 1 + m;
        while k2 < data.len()
            invariant
                1 + n + 1 + m <= k2 <= data@.len(),
                data@.len() <= usize::MAX,
                ct@ == data@.subrange(1 + n + 1 + m, k2 as int),
            decreases data@.len() - k2,
        {
            ct.push(data[k2]);
            proof {
                assert(ct@ =~= data@.subrange(1 + n + 1 + m, k2 + 1int));
            }
            k2 = k2 + 1;
        }
        let pt = match aes_open(key, nonce.as_slice(), ct.as_slice()) {
            Some(pt) => pt,
            None => {
                return Err(DecodeError::Crypto);
            },
        };
        let text = match bytes_to_string(pt.as_slice()) {
            Some(s) => s,
            None => {
                proof {
                    broadcast use vstd::utf8::encode_utf8_valid_utf8;

                }
                return Err(DecodeError::StructureParse);
            },
        };
        proof {
            broadcast use vstd::utf8::encode_utf8_valid_utf8, vstd::utf8::encode_utf8_decode_utf8;

        }
        let chars = crate::text::str_to_chars(text.as_str());
        let value = match crate::json::parse_json_text(&chars) {
            Ok(v) => v,
            Err(e) => {
                return Err(e);
            },
        };
        let mut message = match crate::envelope::message_from_json(&value) {
            Ok(m) => m,
            Err(e) => {
                return Err(e);
            },
        };
        message.server_id = Some(sid);
        Ok(message)
    }
}

/// Every packet this library seals decrypts, under the same key, to the
/// message it was made from, with the session handle cleared.
proof fn lemma_packet_decodes(
    m: MessageV,
    key: Seq<u8>,
    sid: Seq<u8>,
    nonce: Seq<u8>,
    ct: Seq<u8>,
    pt: Seq<u8>,
    packet: Seq<u8>,
)
    requires
        m.server_id == Some(sid),
        sid.len() <= 255,
        nonce.len() == 12,
        pt == spec_message_bytes(m),
        aead_open(key.subrange(0, 32), nonce, ct) == Some(pt),
        packet == wire_packet(sid, nonce, ct),
        key.len() >= 32,
    ensures
        wf_message(m) ==> spec_from_bytes(packet, key) == Ok::<MessageV, DecodeError>(
            received_view(m),
        ),
{
    if wf_message(m) {
        broadcast use vstd::utf8::encode_utf8_valid_utf8, vstd::utf8::encode_utf8_decode_utf8;

        assert(packet.len() == 1 + sid.len() + 1 + nonce.len() + ct.len());
        assert(packet[0] == sid.len() as u8);
        assert(packet.subrange(1, 1 + sid.len() as int) =~= sid);
        assert(packet[1 + sid.len() as int] == 12u8);
        assert(packet.subrange(1 + sid.len() as int + 1, 1 + sid.len() as int + 1 + 12)
            =~= nonce);
        assert(packet.subrange(1 + sid.len() as int + 1 + 12, packet.len() as int) =~= ct);
        let text = message_text(m);
        assert(vstd::utf8::valid_utf8(pt));
        assert(vstd::utf8::decode_utf8(pt) == text);
        crate::envelope::lemma_message_wf_value(m);
        crate::json::lemma_parse_render_json(crate::envelope::message_json(m));
        crate::envelope::lemma_message_round_trip(m);
    }
}


/// What building a message out of the host's five raw strings yields: the
/// type tag and id are checked, payload and context decoded from host text,
/// and the error list read from host text.
pub open spec fn spec_from_arma(
    id: Seq<char>,
    tag: Seq<char>,
    data: Seq<char>,
    metadata: Seq<char>,
    errors: Seq<char>,
) -> Result<MessageV, DecodeError> {
    match crate::envelope::type_of_tag(tag) {
        None => Err(DecodeError::Shape),
        Some(t) => if crate::envelope::canonical_uuid_text(id) is None {
            Err(DecodeError::Shape)
        } else {
            match crate::parser::spec_decode_payload(data) {
                Err(e) => Err(e),
                Ok(d) => match crate::parser::spec_decode_metadata_payload(metadata) {
                    Err(e) => Err(e),
                    Ok(md) => match crate::json::parse_json(
                        crate::parser::normalized_text(errors),
                    ) {
                        None => Err(DecodeError::StructureParse),
                        Some(ev) => match ev {
                            crate::arma_value::ValueV::Arr(items) => match crate::envelope::decode_errors(
                                items,
                                0,
                            ) {
                                Ok(es) => Ok(
                                    MessageV {
                                        id: crate::envelope::canonical_uuid_text(id)->Some_0,
                                        message_type: t,
                                        server_id: None,
                                        resource_id: None,
                                        data: d,
                                        metadata: md,
                                        errors: es,
                                    },
                                ),
                                Err(e) => Err(e),
                            },
                            _ => Err(DecodeError::Shape),
                        },
                    },
                },
            }
        },
    }
}

impl Message {
    /// Builds a message from the five raw strings the host hands over: an
    /// id in any accepted shape (kept in canonical lowercase hyphenated
    /// form), a type tag, and the payload, context and error list in host
    /// grammar.
    pub fn from_arma(
        id: String,
        message_type: String,
        data: String,
        metadata: String,
        errors: String,
    ) -> (r: Result<Message, DecodeError>)
        ensures
            match r {
                Ok(m) => spec_from_arma(id@, message_type@, data@, metadata@, errors@) == Ok::<
                    MessageV,
                    DecodeError,
                >(m@),
                Err(e) => spec_from_arma(id@, message_type@, data@, metadata@, errors@) == Err::<
                    MessageV,
                    DecodeError,
                >(e),
            },
    {
        let t = match crate::envelope::type_of_tag_exec(message_type.as_str()) {
            Some(t) => t,
            None => {
                return Err(DecodeError::Shape);
            },
        };
        let id = match crate::envelope::parse_uuid_text(id.as_str()) {
            Some(t) => t,
            None => {
                return Err(DecodeError::Shape);
            },
        };
        let d = match crate::parser::decode_payload(data.as_str()) {
            Ok(d) => d,
            Err(e) => {
                return Err(e);
            },
        };
        let md = match crate::parser::decode_metadata_payload(metadata.as_str()) {
            Ok(m) => m,
            Err(e) => {
                return Err(e);
            },
        };
        let ev = match crate::parser::Parser::from_arma(errors.as_str()) {
            Ok(v) => v,
            Err(e) => {
                return Err(e);
            },
        };
        let es = match &ev {
            crate::arma_value::ArmaValue::Array(_) => match crate::envelope::errors_list_exec(
                &ev,
            ) {
                Ok(es) => es,
                Err(e) => {
                    return Err(e);
                },
            },
            _ => {
                return Err(DecodeError::Shape);
            },
        };
        let r = Message {
            id,
            message_type: t,
            server_id: None,
            resource_id: None,
            data: d,
            metadata: md,
            errors: es,
        };
        Ok(r)
    }
}


/// What building a message from already-parsed host values in the legacy
/// parallel convention yields; errors here are bare strings.
pub open spec fn spec_from_arma_values(
    id: Seq<char>,
    tag: Seq<char>,
    data: crate::arma_value::ValueV,
    metadata: crate::arma_value::ValueV,
    errors: crate::arma_value::ValueV,
) -> Result<MessageV, DecodeError> {
    match crate::parser::spec_data_from_arma_value(data) {
        Err(e) => Err(e),
        Ok(d) => match crate::parser::spec_metadata_from_arma_value(metadata) {
            Err(e) => Err(e),
            Ok(md) => match crate::envelope::type_of_tag(tag) {
                None => Err(DecodeError::Shape),
                Some(t) => if crate::envelope::canonical_uuid_text(id) is None {
                    Err(DecodeError::Shape)
                } else {
                    match errors {
                        crate::arma_value::ValueV::Arr(items) => match crate::envelope::decode_errors(
                            items,
                            0,
                        ) {
                            Ok(es) => Ok(
                                MessageV {
                                    id: crate::envelope::canonical_uuid_text(id)->Some_0,
                                    message_type: t,
                                    server_id: None,
                                    resource_id: None,
                                    data: d,
                                    metadata: md,
                                    errors: es,
                                },
                            ),
                            Err(e) => Err(e),
                        },
                        _ => Err(DecodeError::Shape),
                    }
                },
            },
        },
    }
}

impl Message {
    /// Builds a message from already-parsed host values in the legacy
    /// parallel convention: payload and context as `[tag, [keys, values]]`,
    /// errors as an array of plain strings.
    pub fn from_arma_values(
        id: String,
        message_type: String,
        data: &crate::arma_value::ArmaValue,
        metadata: &crate::arma_value::ArmaValue,
        errors: &crate::arma_value::ArmaValue,
    ) -> (r: Result<Message, DecodeError>)
        ensures
            match r {
                Ok(m) => spec_from_arma_values(id@, message_type@, data@, metadata@, errors@)
                    == Ok::<MessageV, DecodeError>(m@),
                Err(e) => spec_from_arma_values(id@, message_type@, data@, metadata@, errors@)
                    == Err::<MessageV, DecodeError>(e),
            },
    {
        let d = match crate::parser::data_from_arma_value(data) {
            Ok(d) => d,
            Err(e) => {
                return Err(e);
            },
        };
        let md = match crate::parser::metadata_from_arma_value(metadata) {
            Ok(m) => m,
            Err(e) => {
                return Err(e);
            },
        };
        let t = match crate::envelope::type_of_tag_exec(message_type.as_str()) {
            Some(t) => t,
            None => {
                return Err(DecodeError::Shape);
            },
        };
        let id = match crate::envelope::parse_uuid_text(id.as_str()) {
            Some(t) => t,
            None => {
                return Err(DecodeError::Shape);
            },
        };
        let es = match errors {
            crate::arma_value::ArmaValue::Array(_) => match crate::envelope::errors_list_exec(
                errors,
            ) {
                Ok(es) => es,
                Err(e) => {
                    return Err(e);
                },
            },
            _ => {
                return Err(DecodeError::Shape);
            },
        };
        Ok(
            Message {
                id,
                message_type: t,
                server_id: None,
                resource_id: None,
                data: d,
                metadata: md,
                errors: es,
            },
        )
    }
}

} // verus!
