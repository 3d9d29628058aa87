//! The request/response protocol model: the outbound envelope and its three
//! payload variants, the inbound envelope and its result-wrapped variants,
//! the success/error unwrapping of responses, and the one-byte wire framing
//! around sealed transport payloads.

use vstd::prelude::*;

use crate::blob::{b64_chars, Base64Buffer};
use crate::error::Error;
use crate::json::{
    clone_json, clone_string, jpairs_of, jvals_of, lemma_jpairs_of_index, lemma_jvals_of_index,
    lookup, spec_lookup, JVal, Json,
};

verus! {

broadcast use vstd::std_specs::vec::group_vec_axioms, vstd::seq::group_seq_axioms;

/// The protocol version embedded in every outbound request.
pub const PROTOCOL_VERSION: &'static str = "3.0.0";

/// Relies on sodiumoxide::randombytes::randombytes, which returns the
/// requested number of freshly drawn random bytes.
#[verifier::external_body]
fn random_bytes(size: usize) -> (r: Vec<u8>)
    ensures
        r@.len() == size,
{
    sodiumoxide::randombytes::randombytes(size)
}

/// Relies on chrono::Utc::now together with DateTime::timestamp for the
/// current wall-clock time in whole seconds; nothing is assumed of the value.
#[verifier::external_body]
fn unix_now() -> (r: i64)
{
    chrono::Utc::now().timestamp()
}

/// One outbound operation envelope.
#[derive(Debug, PartialEq, Eq)]
pub struct Request {
    /// Globally unique per request: 32 fresh random bytes, base64-encoded.
    pub id: String,
    /// Wall-clock seconds at construction time.
    pub unix_seconds: i64,
    /// Whether the peer should emit a delivery acknowledgment distinct from
    /// the operation response.
    pub send_ack: bool,
    /// The protocol version, fixed at construction.
    pub version: String,
    /// Exactly one operation payload.
    pub body: RequestBody,
}

impl Request {
    /// Builds a fresh envelope around `body`: a new random identifier, the
    /// current wall clock, no acknowledgment requested, and the fixed
    /// protocol version.
    pub fn new(body: RequestBody) -> (r: Self)
        ensures
            exists|b: Seq<u8>| b.len() == 32 && r.id@ == b64_chars(b),
            r.send_ack == false,
            r.version@ == PROTOCOL_VERSION@,
            r.body == body,
    {
        let rnd = random_bytes(32);
        let id = Base64Buffer(rnd).to_string();
        Request {
            id,
            unix_seconds: unix_now(),
            send_ack: false,
            version: PROTOCOL_VERSION.to_owned(),
            body,
        }
    }
}

/// The three outbound operation payloads.
#[derive(Debug, PartialEq, Eq)]
pub enum RequestBody {
    Id(IdRequest),
    Register(RegisterRequest),
    Authenticate(AuthenticateRequest),
}

/// A pure identity probe: no fields.
#[derive(Debug, PartialEq, Eq)]
pub struct IdRequest {}

/// A key-registration request.
#[derive(Debug, PartialEq, Eq)]
pub struct RegisterRequest {
    pub challenge: Base64Buffer,
    /// The relying-party identifier, transported under a legacy key name.
    pub rp_id: String,
    pub rp_name: Option<String>,
    pub user: Option<UserData>,
    /// Selects WebAuthn-flavored attestation semantics over classic U2F.
    pub is_webauthn: bool,
}

/// The user entry optionally carried by a registration request.
#[derive(Debug, PartialEq, Eq)]
pub struct UserData {
    pub id: Base64Buffer,
    pub display_name: String,
}

/// A key-authentication request. The two key-handle fields are private:
/// call sites read them only through `get_key_handles`, which keeps the
/// precedence rule between them in one place.
#[derive(Debug, PartialEq, Eq)]
pub struct AuthenticateRequest {
    pub challenge: Base64Buffer,
    /// The relying-party identifier, transported under a legacy key name.
    pub rp_id: String,
    /// Free-form extension entries, keyed by unique strings.
    pub extensions: Option<Vec<(String, Json)>>,
    pub(crate) key_handle: Option<Base64Buffer>,
    pub(crate) key_handles: Option<Vec<Base64Buffer>>,
}

impl AuthenticateRequest {
    /// The challenge blob, as stored.
    pub closed spec fn spec_challenge(&self) -> Base64Buffer {
        self.challenge
    }

    /// The relying-party identifier, as stored.
    pub closed spec fn spec_rp_id(&self) -> String {
        self.rp_id
    }

    /// The extension entries, as stored.
    pub closed spec fn spec_extensions(&self) -> Option<Vec<(String, Json)>> {
        self.extensions
    }

    /// The single optional key handle, as stored.
    pub closed spec fn spec_key_handle(&self) -> Option<Base64Buffer> {
        self.key_handle
    }

    /// The optional ordered key-handle list, as stored.
    pub closed spec fn spec_key_handles(&self) -> Option<Vec<Base64Buffer>> {
        self.key_handles
    }

    /// The handles that `get_key_handles` exposes: the list wins outright if
    /// present, else the single handle alone, else nothing.
    pub open spec fn spec_key_handle_list(&self) -> Seq<Base64Buffer> {
        match self.spec_key_handles() {
            Some(khs) => khs@,
            None => match self.spec_key_handle() {
                Some(kh) => seq![kh],
                None => Seq::<Base64Buffer>::empty(),
            },
        }
    }

    pub fn new(
        challenge: Base64Buffer,
        rp_id: String,
        extensions: Option<Vec<(String, Json)>>,
        key_handle: Option<Base64Buffer>,
        key_handles: Option<Vec<Base64Buffer>>,
    ) -> (r: Self)
        ensures
            r.spec_challenge() == challenge,
            r.spec_rp_id() == rp_id,
            r.spec_extensions() == extensions,
            r.spec_key_handle() == key_handle,
            r.spec_key_handles() == key_handles,
    {
        AuthenticateRequest { challenge, rp_id, extensions, key_handle, key_handles }
    }

    /// The key handles this request selects, in priority order: the contents
    /// of the list field if it is present (order preserved), else the single
    /// handle if present, else the empty sequence.
    pub fn get_key_handles(&self) -> (r: Vec<&Base64Buffer>)
        ensures
            r@.len() == self.spec_key_handle_list().len(),
            forall|i: int| 0 <= i < r@.len() ==> *r@[i] == self.spec_key_handle_list()[i],
    {
        match &self.key_handles {
            Some(khs) => {
                let mut out: Vec<&Base64Buffer> = Vec::new();
                let mut i: usize = 0;
                while i < khs.len()
                    invariant
                        i <= khs.len(),
                        out@.len() == i,
                        forall|j: int| 0 <= j < i ==> *out@[j] == khs@[j],
                    decreases khs.len() - i,
                {
                    out.push(&khs[i]);
                    i = i + 1;
                }
                out
            },
            None => match &self.key_handle {
                Some(kh) => vec![kh],
                None => Vec::new(),
            },
        }
    }
}

/// One inbound reply envelope.
#[derive(Debug, PartialEq, Eq)]
pub struct Response {
    /// Echoes the `id` of the originating request.
    pub request_id: String,
    /// Out-of-band push-registration metadata, unrelated to the result.
    pub aws_push_id: Option<String>,
    pub device_token: Option<String>,
    /// The protocol version the peer used.
    pub version: String,
    /// Exactly one result-wrapped payload.
    pub body: ResponseBody,
}

/// Holds either successful contents or a peer-reported error message; the
/// two fields are read only through `into_result`, which enforces the
/// success-xor-error contract.
#[derive(Debug, PartialEq, Eq)]
pub struct ClientResult<T> {
    contents: Option<T>,
    error: Option<String>,
}

impl<T> ClientResult<T> {
    /// The stored contents, as received.
    pub closed spec fn spec_contents(&self) -> Option<T> {
        self.contents
    }

    /// The stored error message, as received.
    pub closed spec fn spec_error(&self) -> Option<String> {
        self.error
    }

    /// The strict outcome this result resolves to: contents alone succeed; a
    /// peer error message always wins over partially-present contents; and
    /// neither present is a protocol-contract violation.
    pub open spec fn spec_resolution(&self) -> Result<T, Error> {
        match (self.spec_contents(), self.spec_error()) {
            (Some(c), None) => Ok(c),
            (_, Some(e)) => Err(Error::DeviceError(e)),
            (_, _) => Err(Error::UnexpectedResponse),
        }
    }

    pub fn new(contents: Option<T>, error: Option<String>) -> (r: Self)
        ensures
            r.spec_contents() == contents,
            r.spec_error() == error,
    {
        ClientResult { contents, error }
    }

    /// Resolves the success/error contract: success exactly when contents are
    /// present and no error is; a present error becomes `DeviceError` with
    /// the peer's message verbatim; both absent is `UnexpectedResponse`.
    pub fn into_result(self) -> (r: Result<T, Error>)
        ensures
            r == self.spec_resolution(),
    {
        match (self.contents, self.error) {
            (Some(c), None) => Ok(c),
            (_, Some(e)) => Err(Error::DeviceError(e)),
            (_, _) => Err(Error::UnexpectedResponse),
        }
    }
}

/// The three inbound payloads, each wrapped in the success/error contract.
#[derive(Debug, PartialEq, Eq)]
pub enum ResponseBody {
    Id(ClientResult<IdResponse>),
    Register(ClientResult<RegisterResponse>),
    Authenticate(ClientResult<AuthenticateResponse>),
}

/// The identity-probe reply.
#[derive(Debug, PartialEq, Eq)]
pub struct IdResponse {
    pub data: IdData,
}

#[derive(Debug, PartialEq, Eq)]
pub struct IdData {
    pub email: String,
    pub device_identifier: Base64Buffer,
}

/// The registration reply.
#[derive(Debug, PartialEq, Eq)]
pub struct RegisterResponse {
    pub public_key: Base64Buffer,
    pub key_handle: Base64Buffer,
    pub attestation_certificate: Base64Buffer,
    pub signature: Base64Buffer,
    pub attestation_data: Base64Buffer,
}

/// The authentication reply.
#[derive(Debug, PartialEq, Eq)]
pub struct AuthenticateResponse {
    pub public_key: Base64Buffer,
    /// The authenticator's signature counter; monotonicity is enforced by
    /// the caller, not here.
    pub counter: u32,
    pub signature: Base64Buffer,
    pub key_handle: Base64Buffer,
    pub user_handle: Option<Base64Buffer>,
    pub authenticator_data: Base64Buffer,
}

impl IdResponse {
    /// Narrows a response body to an identity reply: succeeds only when the
    /// body is the identity variant and its result resolves to success; any
    /// other variant fails with `UnexpectedResponse`, whatever outcome it
    /// carried.
    pub fn try_from(value: ResponseBody) -> (r: Result<Self, Error>)
        ensures
            value matches ResponseBody::Id(cr) ==> r == cr.spec_resolution(),
            !(value is Id) ==> r == Err::<Self, Error>(Error::UnexpectedResponse),
    {
        match value {
            ResponseBody::Id(resp) => resp.into_result(),
            _ => Err(Error::UnexpectedResponse),
        }
    }
}

impl RegisterResponse {
    /// Narrows a response body to a registration reply; see
    /// `IdResponse::try_from` for the rule.
    pub fn try_from(value: ResponseBody) -> (r: Result<Self, Error>)
        ensures
            value matches ResponseBody::Register(cr) ==> r == cr.spec_resolution(),
            !(value is Register) ==> r == Err::<Self, Error>(Error::UnexpectedResponse),
    {
        match value {
            ResponseBody::Register(resp) => resp.into_result(),
            _ => Err(Error::UnexpectedResponse),
        }
    }
}

impl AuthenticateResponse {
    /// Narrows a response body to an authentication reply; see
    /// `IdResponse::try_from` for the rule.
    pub fn try_from(value: ResponseBody) -> (r: Result<Self, Error>)
        ensures
            value matches ResponseBody::Authenticate(cr) ==> r == cr.spec_resolution(),
            !(value is Authenticate) ==> r == Err::<Self, Error>(Error::UnexpectedResponse),
    {
        match value {
            ResponseBody::Authenticate(resp) => resp.into_result(),
            _ => Err(Error::UnexpectedResponse),
        }
    }
}

/// The outermost transport framing: a one-byte discriminator selects between
/// a sealed application message and a sealed public-key announcement; the
/// rest of the bytes are opaque to this layer.
#[derive(Debug, PartialEq, Eq)]
pub enum WireMessage {
    SealedMessage(Vec<u8>),
    SealedPublicKey(Vec<u8>),
}

impl WireMessage {
    /// Unframes transport bytes: tag 0x00 selects a sealed message, 0x02 a
    /// sealed public key; an empty input or any other tag (0x01 and the rest
    /// are reserved) is rejected, never silently ignored.
    pub fn new(data: Vec<u8>) -> (r: Result<Self, Error>)
        ensures
            data@.len() == 0 ==> (r matches Err(e) && e is InvalidWireProtocol),
            data@.len() > 0 ==> match data@[0] {
                0x00u8 => (r matches Ok(WireMessage::SealedMessage(p)) && p@ == data@.skip(1)),
                0x02u8 => (r matches Ok(WireMessage::SealedPublicKey(p)) && p@ == data@.skip(1)),
                _ => (r matches Err(e) && e is InvalidWireProtocol),
            },
    {
        if data.len() == 0 {
            return Err(Error::InvalidWireProtocol);
        }
        let mut data = data;
        let ghost dv = data@;
        let tag = data.remove(0);
        assert(data@ =~= dv.skip(1));
        match tag {
            0x00u8 => Ok(WireMessage::SealedMessage(data)),
            0x02u8 => Ok(WireMessage::SealedPublicKey(data)),
            _ => Err(Error::InvalidWireProtocol),
        }
    }

    /// Frames this message for transport: prepends the variant's tag byte to
    /// the payload. This direction cannot fail.
    pub fn into_wire(self) -> (r: Vec<u8>)
        ensures
            self matches WireMessage::SealedMessage(d) ==> r@ == seq![0x00u8] + d@,
            self matches WireMessage::SealedPublicKey(d) ==> r@ == seq![0x02u8] + d@,
    {
        match self {
            WireMessage::SealedMessage(data) => {
                let mut out: Vec<u8> = Vec::new();
                out.push(0x00u8);
                let mut data = data;
                out.append(&mut data);
                assert(out@ =~= seq![0x00u8] + out@.skip(1));
                out
            },
            WireMessage::SealedPublicKey(data) => {
                let mut out: Vec<u8> = Vec::new();
                out.push(0x02u8);
                let mut data = data;
                out.append(&mut data);
                assert(out@ =~= seq![0x02u8] + out@.skip(1));
                out
            },
        }
    }
}

/// Mathematical model of a request envelope.
pub struct ReqV {
    pub id: Seq<char>,
    pub unix_seconds: i64,
    pub send_ack: bool,
    pub version: Seq<char>,
    pub body: BodyV,
}

/// Mathematical model of a request payload.
pub enum BodyV {
    Id,
    Register(RegV),
    Authenticate(AuthV),
}

/// Mathematical model of a registration request.
pub struct RegV {
    pub challenge: Seq<u8>,
    pub rp_id: Seq<char>,
    pub rp_name: Option<Seq<char>>,
    pub user: Option<UserV>,
    pub is_webauthn: bool,
}

/// Mathematical model of a user entry.
pub struct UserV {
    pub id: Seq<u8>,
    pub display_name: Seq<char>,
}

/// Mathematical model of an authentication request.
pub struct AuthV {
    pub challenge: Seq<u8>,
    pub rp_id: Seq<char>,
    pub extensions: Option<Seq<(Seq<char>, JVal)>>,
    pub key_handle: Option<Seq<u8>>,
    pub key_handles: Option<Seq<Seq<u8>>>,
}

/// The byte sequences held by a sequence of blobs.
pub open spec fn blobs_view(v: Seq<Base64Buffer>) -> Seq<Seq<u8>> {
    Seq::new(v.len(), |i: int| v[i].0@)
}

impl View for UserData {
    type V = UserV;

    open spec fn view(&self) -> UserV {
        UserV { id: self.id.0@, display_name: self.display_name@ }
    }
}

impl View for RegisterRequest {
    type V = RegV;

    open spec fn view(&self) -> RegV {
        RegV {
            challenge: self.challenge.0@,
            rp_id: self.rp_id@,
            rp_name: match self.rp_name {
                Some(s) => Some(s@),
                None => None,
            },
            user: match self.user {
                Some(u) => Some(u@),
                None => None,
            },
            is_webauthn: self.is_webauthn,
        }
    }
}

impl View for AuthenticateRequest {
    type V = AuthV;

    open spec fn view(&self) -> AuthV {
        AuthV {
            challenge: self.spec_challenge().0@,
            rp_id: self.spec_rp_id()@,
            extensions: match self.spec_extensions() {
                Some(v) => Some(jpairs_of(v@)),
                None => None,
            },
            key_handle: match self.spec_key_handle() {
                Some(b) => Some(b.0@),
                None => None,
            },
            key_handles: match self.spec_key_handles() {
                Some(v) => Some(blobs_view(v@)),
                None => None,
            },
        }
    }
}

impl View for RequestBody {
    type V = BodyV;

    open spec fn view(&self) -> BodyV {
        match self {
            RequestBody::Id(_) => BodyV::Id,
            RequestBody::Register(rg) => BodyV::Register(rg@),
            RequestBody::Authenticate(a) => BodyV::Authenticate(a@),
        }
    }
}

impl View for Request {
    type V = ReqV;

    open spec fn view(&self) -> ReqV {
        ReqV {
            id: self.id@,
            unix_seconds: self.unix_seconds,
            send_ack: self.send_ack,
            version: self.version@,
            body: self.body@,
        }
    }
}

/// Whether `k` is one of the three request discriminator keys.
pub open spec fn is_request_disc_key(k: Seq<char>) -> bool {
    k == "me_request"@ || k == "u2f_register_request"@ || k == "u2f_authenticate_request"@
}

/// How many members of a JSON object carry a request discriminator key.
pub open spec fn request_disc_count(ms: Seq<(Seq<char>, JVal)>) -> int
    decreases ms.len(),
{
    if ms.len() == 0 {
        0
    } else {
        (if is_request_disc_key(ms[0].0) {
            1int
        } else {
            0int
        }) + request_disc_count(ms.drop_first())
    }
}

/// A blob rendered for transport: its base64 text.
pub open spec fn jblob(b: Seq<u8>) -> JVal {
    JVal::Str(b64_chars(b))
}

/// An optional string rendered for transport: `null` when absent.
pub open spec fn jopt_str(s: Option<Seq<char>>) -> JVal {
    match s {
        Some(t) => JVal::Str(t),
        None => JVal::Null,
    }
}

/// The object stored under a user key.
pub open spec fn spec_user_obj(u: UserV) -> JVal {
    JVal::Obj(seq![("id"@, jblob(u.id)), ("display_name"@, JVal::Str(u.display_name))])
}

/// The variant object of a registration request.
pub open spec fn spec_register_obj(rg: RegV) -> JVal {
    JVal::Obj(
        seq![
            ("challenge"@, jblob(rg.challenge)),
            ("app_id"@, JVal::Str(rg.rp_id)),
            ("rp_name"@, jopt_str(rg.rp_name)),
            (
                "user"@,
                match rg.user {
                    Some(u) => spec_user_obj(u),
                    None => JVal::Null,
                },
            ),
            ("webauthn"@, JVal::Bool(rg.is_webauthn)),
        ],
    )
}

/// The array of base64 texts standing for a blob list.
pub open spec fn spec_blob_arr(bs: Seq<Seq<u8>>) -> Seq<JVal> {
    Seq::new(bs.len(), |i: int| jblob(bs[i]))
}

/// The variant object of an authentication request.
pub open spec fn spec_auth_obj(a: AuthV) -> JVal {
    JVal::Obj(
        seq![
            ("challenge"@, jblob(a.challenge)),
            ("app_id"@, JVal::Str(a.rp_id)),
            (
                "extensions"@,
                match a.extensions {
                    Some(ms) => JVal::Obj(ms),
                    None => JVal::Null,
                },
            ),
            (
                "key_handle"@,
                match a.key_handle {
                    Some(b) => jblob(b),
                    None => JVal::Null,
                },
            ),
            (
                "key_handles"@,
                match a.key_handles {
                    Some(bs) => JVal::Arr(spec_blob_arr(bs)),
                    None => JVal::Null,
                },
            ),
        ],
    )
}

/// The discriminator member a request payload contributes to the envelope.
pub open spec fn spec_body_member(b: BodyV) -> (Seq<char>, JVal) {
    match b {
        BodyV::Id => ("me_request"@, JVal::Obj(Seq::<(Seq<char>, JVal)>::empty())),
        BodyV::Register(rg) => ("u2f_register_request"@, spec_register_obj(rg)),
        BodyV::Authenticate(a) => ("u2f_authenticate_request"@, spec_auth_obj(a)),
    }
}

/// The flat JSON object a request envelope serializes to: the renamed
/// envelope fields and exactly one discriminator member, as siblings.
pub open spec fn spec_request_jval(rv: ReqV) -> JVal {
    JVal::Obj(
        seq![
            ("request_id"@, JVal::Str(rv.id)),
            ("unix_seconds"@, JVal::Int(rv.unix_seconds)),
            ("a"@, JVal::Bool(rv.send_ack)),
            ("v"@, JVal::Str(rv.version)),
            spec_body_member(rv.body),
        ],
    )
}

/// Evaluates the member lookups a decoder performs on a serialized request
/// envelope: every envelope field is found under its renamed key, and the one
/// discriminator member present is the payload's own.
proof fn lemma_request_envelope_eval(rv: ReqV)
    ensures
        ({
            let ms = spec_request_jval(rv)->Obj_0;
            &&& spec_lookup(ms, "request_id"@) == Some(JVal::Str(rv.id))
            &&& spec_lookup(ms, "unix_seconds"@) == Some(JVal::Int(rv.unix_seconds))
            &&& spec_lookup(ms, "a"@) == Some(JVal::Bool(rv.send_ack))
            &&& spec_lookup(ms, "v"@) == Some(JVal::Str(rv.version))
            &&& spec_lookup(ms, "me_request"@) == (if rv.body is Id {
                Some(spec_body_member(rv.body).1)
            } else {
                None::<JVal>
            })
            &&& spec_lookup(ms, "u2f_register_request"@) == (if rv.body is Register {
                Some(spec_body_member(rv.body).1)
            } else {
                None::<JVal>
            })
            &&& spec_lookup(ms, "u2f_authenticate_request"@) == (if rv.body is Authenticate {
                Some(spec_body_member(rv.body).1)
            } else {
                None::<JVal>
            })
            &&& request_disc_count(ms) == 1
        }),
{
    reveal_strlit("request_id");
    reveal_strlit("unix_seconds");
    reveal_strlit("a");
    reveal_strlit("v");
    reveal_strlit("me_request");
    reveal_strlit("u2f_register_request");
    reveal_strlit("u2f_authenticate_request");
    reveal_with_fuel(spec_lookup, 7);
    reveal_with_fuel(request_disc_count, 7);
    assert("request_id"@.len() == 10);
    assert("unix_seconds"@.len() == 12);
    assert("a"@.len() == 1);
    assert("v"@.len() == 1);
    assert("me_request"@.len() == 10);
    assert("u2f_register_request"@.len() == 20);
    assert("u2f_authenticate_request"@.len() == 24);
    assert("a"@[0] == 'a');
    assert("v"@[0] == 'v');
    assert("request_id"@[0] == 'r');
    assert("me_request"@[0] == 'm');
    let ms = spec_request_jval(rv)->Obj_0;
    assert(ms.drop_first() =~= ms.skip(1));
    assert(ms.skip(1).drop_first() =~= ms.skip(2));
    assert(ms.skip(2).drop_first() =~= ms.skip(3));
    assert(ms.skip(3).drop_first() =~= ms.skip(4));
    assert(ms.skip(4).drop_first() =~= ms.skip(5));
    assert(ms.skip(5) =~= Seq::<(Seq<char>, JVal)>::empty());
}

/// Evaluates the member lookups on a serialized registration payload.
proof fn lemma_register_obj_eval(rg: RegV)
    ensures
        ({
            let ms = spec_register_obj(rg)->Obj_0;
            &&& spec_lookup(ms, "challenge"@) == Some(jblob(rg.challenge))
            &&& spec_lookup(ms, "app_id"@) == Some(JVal::Str(rg.rp_id))
            &&& spec_lookup(ms, "rp_name"@) == Some(jopt_str(rg.rp_name))
            &&& spec_lookup(ms, "user"@) == Some(
                match rg.user {
                    Some(u) => spec_user_obj(u),
                    None => JVal::Null,
                },
            )
            &&& spec_lookup(ms, "webauthn"@) == Some(JVal::Bool(rg.is_webauthn))
        }),
{
    reveal_strlit("challenge");
    reveal_strlit("app_id");
    reveal_strlit("rp_name");
    reveal_strlit("user");
    reveal_strlit("webauthn");
    reveal_with_fuel(spec_lookup, 7);
    assert("challenge"@.len() == 9);
    assert("app_id"@.len() == 6);
    assert("rp_name"@.len() == 7);
    assert("user"@.len() == 4);
    assert("webauthn"@.len() == 8);
    let ms = spec_register_obj(rg)->Obj_0;
    assert(ms.drop_first() =~= ms.skip(1));
    assert(ms.skip(1).drop_first() =~= ms.skip(2));
    assert(ms.skip(2).drop_first() =~= ms.skip(3));
    assert(ms.skip(3).drop_first() =~= ms.skip(4));
    assert(ms.skip(4) =~= Seq::<(Seq<char>, JVal)>::empty().push(ms[4]));
}

/// Evaluates the member lookups on a serialized authentication payload.
proof fn lemma_auth_obj_eval(a: AuthV)
    ensures
        ({
            let ms = spec_auth_obj(a)->Obj_0;
            &&& spec_lookup(ms, "challenge"@) == Some(jblob(a.challenge))
            &&& spec_lookup(ms, "app_id"@) == Some(JVal::Str(a.rp_id))
            &&& spec_lookup(ms, "extensions"@) == Some(
                match a.extensions {
                    Some(x) => JVal::Obj(x),
                    None => JVal::Null,
                },
            )
            &&& spec_lookup(ms, "key_handle"@) == Some(
                match a.key_handle {
                    Some(b) => jblob(b),
                    None => JVal::Null,
                },
            )
            &&& spec_lookup(ms, "key_handles"@) == Some(
                match a.key_handles {
                    Some(bs) => JVal::Arr(spec_blob_arr(bs)),
                    None => JVal::Null,
                },
            )
        }),
{
    reveal_strlit("challenge");
    reveal_strlit("app_id");
    reveal_strlit("extensions");
    reveal_strlit("key_handle");
    reveal_strlit("key_handles");
    reveal_with_fuel(spec_lookup, 7);
    assert("challenge"@.len() == 9);
    assert("app_id"@.len() == 6);
    assert("extensions"@.len() == 10);
    assert("key_handle"@.len() == 10);
    assert("key_handles"@.len() == 11);
    assert("extensions"@[0] == 'e');
    assert("key_handle"@[0] == 'k');
    let ms = spec_auth_obj(a)->Obj_0;
    assert(ms.drop_first() =~= ms.skip(1));
    assert(ms.skip(1).drop_first() =~= ms.skip(2));
    assert(ms.skip(2).drop_first() =~= ms.skip(3));
    assert(ms.skip(3).drop_first() =~= ms.skip(4));
    assert(ms.skip(4) =~= Seq::<(Seq<char>, JVal)>::empty().push(ms[4]));
}

/// Evaluates the member lookups on a serialized user entry.
proof fn lemma_user_obj_eval(u: UserV)
    ensures
        ({
            let ms = spec_user_obj(u)->Obj_0;
            &&& spec_lookup(ms, "id"@) == Some(jblob(u.id))
            &&& spec_lookup(ms, "display_name"@) == Some(JVal::Str(u.display_name))
        }),
{
    reveal_strlit("id");
    reveal_strlit("display_name");
    reveal_with_fuel(spec_lookup, 4);
    assert("id"@.len() == 2);
    assert("display_name"@.len() == 12);
    let ms = spec_user_obj(u)->Obj_0;
    assert(ms.drop_first() =~= ms.skip(1));
    assert(ms.skip(1) =~= Seq::<(Seq<char>, JVal)>::empty().push(ms[1]));
}

/// Extending a prefix by one member adds that member's contribution to the
/// discriminator count.
proof fn lemma_disc_count_take_step(ms: Seq<(Seq<char>, JVal)>, i: int)
    requires
        0 <= i < ms.len(),
    ensures
        request_disc_count(ms.take(i + 1)) == request_disc_count(ms.take(i)) + (
        if is_request_disc_key(ms[i].0) {
            1int
        } else {
            0int
        }),
    decreases i,
{
    let a = ms.take(i + 1);
    if i == 0 {
        assert(a.drop_first() =~= ms.take(0));
        assert(ms.take(0) =~= Seq::<(Seq<char>, JVal)>::empty());
    } else {
        lemma_disc_count_take_step(ms.drop_first(), i - 1);
        assert(a.drop_first() =~= ms.drop_first().take(i));
        assert(ms.take(i).drop_first() =~= ms.drop_first().take(i - 1));
    }
}

/// An object with a positive discriminator count answers at least one of the
/// three discriminator lookups.
proof fn lemma_disc_some(ms: Seq<(Seq<char>, JVal)>)
    requires
        request_disc_count(ms) > 0,
    ensures
        spec_lookup(ms, "me_request"@) is Some || spec_lookup(ms, "u2f_register_request"@)
            is Some || spec_lookup(ms, "u2f_authenticate_request"@) is Some,
    decreases ms.len(),
{
    if ms.len() > 0 {
        if !is_request_disc_key(ms[0].0) {
            lemma_disc_some(ms.drop_first());
        }
    }
}

/// Counts the members of a request object that carry a discriminator key.
#[verifier::loop_isolation(false)]
fn count_request_disc(ps: &Vec<(String, Json)>) -> (n: usize)
    ensures
        n as int == request_disc_count(jpairs_of(ps@)),
{
    proof {
        lemma_jpairs_of_index(ps@);
    }
    let ghost ms = jpairs_of(ps@);
    let me_key: String = "me_request".to_owned();
    let reg_key: String = "u2f_register_request".to_owned();
    let auth_key: String = "u2f_authenticate_request".to_owned();
    let mut n: usize = 0;
    let mut i: usize = 0;
    assert(ms.take(0) =~= Seq::<(Seq<char>, JVal)>::empty());
    while i < ps.len()
        invariant
            i <= ps.len(),
            n <= i,
            n as int == request_disc_count(ms.take(i as int)),
        decreases ps.len() - i,
    {
        proof {
            lemma_disc_count_take_step(ms, i as int);
        }
        let is_disc = ps[i].0.eq(&me_key) || ps[i].0.eq(&reg_key) || ps[i].0.eq(&auth_key);
        if is_disc {
            n = n + 1;
        }
        i = i + 1;
    }
    assert(ms.take(ps@.len() as int) =~= ms);
    n
}

/// Reads a member that must be a string, cloning its text.
fn take_str(ps: &Vec<(String, Json)>, key: &String) -> (r: Result<String, Error>)
    ensures
        r matches Ok(s) ==> spec_lookup(jpairs_of(ps@), key@) == Some(JVal::Str(s@)),
        r is Err ==> (r matches Err(e) && e is FormatError),
        r is Err ==> !(spec_lookup(jpairs_of(ps@), key@) matches Some(v) && v is Str),
{
    match lookup(ps, key) {
        Some(Json::Str(s)) => Ok(clone_string(s)),
        Some(other) => {
            proof {
                crate::json::lemma_jval_shape(*other);
            }
            Err(Error::FormatError)
        },
        None => Err(Error::FormatError),
    }
}

/// Reads a member that must be a base64 string, decoding it.
fn take_blob(ps: &Vec<(String, Json)>, key: &String) -> (r: Result<Base64Buffer, Error>)
    ensures
        r is Err ==> (r matches Err(e) && e is FormatError),
        forall|b: Seq<u8>|
            spec_lookup(jpairs_of(ps@), key@) == Some(jblob(b)) ==> (r matches Ok(d) && d.0@
                == b),
{
    match lookup(ps, key) {
        Some(Json::Str(s)) => {
            match Base64Buffer::from_b64(s.as_str()) {
                Ok(d) => Ok(d),
                Err(_) => Err(Error::FormatError),
            }
        },
        Some(other) => {
            proof {
                crate::json::lemma_jval_shape(*other);
            }
            Err(Error::FormatError)
        },
        None => Err(Error::FormatError),
    }
}

/// Parses a user entry out of its JSON object.
fn parse_user(v: &Json) -> (r: Result<UserData, Error>)
    ensures
        r is Err ==> (r matches Err(e) && e is FormatError),
        forall|u: UserV| v@ == spec_user_obj(u) ==> (r matches Ok(out) && out@ == u),
{
    let ps = match v {
        Json::Obj(ps) => ps,
        _ => {
            proof {
                crate::json::lemma_jval_shape(*v);
            }
            return Err(Error::FormatError);
        },
    };
    let k_id: String = "id".to_owned();
    let k_dn: String = "display_name".to_owned();
    let id = match take_blob(ps, &k_id) {
        Ok(b) => b,
        Err(e) => {
            proof {
                assert forall|u: UserV| v@ != spec_user_obj(u) by {
                    if v@ == spec_user_obj(u) {
                        lemma_user_obj_eval(u);
                    }
                }
            }
            return Err(e);
        },
    };
    let display_name = match take_str(ps, &k_dn) {
        Ok(s) => s,
        Err(e) => {
            proof {
                assert forall|u: UserV| v@ != spec_user_obj(u) by {
                    if v@ == spec_user_obj(u) {
                        lemma_user_obj_eval(u);
                    }
                }
            }
            return Err(e);
        },
    };
    let out = UserData { id, display_name };
    proof {
        assert forall|u: UserV| v@ == spec_user_obj(u) implies (out@ == u) by {
            lemma_user_obj_eval(u);
        }
    }
    Ok(out)
}

/// Parses a registration payload out of its variant object.
fn parse_register(v: &Json) -> (r: Result<RegisterRequest, Error>)
    ensures
        r is Err ==> (r matches Err(e) && e is FormatError),
        forall|rg: RegV| v@ == spec_register_obj(rg) ==> (r matches Ok(out) && out@ == rg),
{
    let ps = match v {
        Json::Obj(ps) => ps,
        _ => {
            proof {
                crate::json::lemma_jval_shape(*v);
            }
            return Err(Error::FormatError);
        },
    };
    let k_challenge: String = "challenge".to_owned();
    let k_app: String = "app_id".to_owned();
    let k_rp_name: String = "rp_name".to_owned();
    let k_user: String = "user".to_owned();
    let k_webauthn: String = "webauthn".to_owned();
    let challenge = match take_blob(ps, &k_challenge) {
        Ok(b) => b,
        Err(e) => {
            proof {
                assert forall|rg: RegV| v@ != spec_register_obj(rg) by {
                    if v@ == spec_register_obj(rg) {
                        lemma_register_obj_eval(rg);
                    }
                }
            }
            return Err(e);
        },
    };
    let rp_id = match take_str(ps, &k_app) {
        Ok(s) => s,
        Err(e) => {
            proof {
                assert forall|rg: RegV| v@ != spec_register_obj(rg) by {
                    if v@ == spec_register_obj(rg) {
                        lemma_register_obj_eval(rg);
                    }
                }
            }
            return Err(e);
        },
    };
    let rp_name = match lookup(ps, &k_rp_name) {
        None => None,
        Some(Json::Null) => None,
        Some(Json::Str(s)) => Some(clone_string(s)),
        Some(other) => {
            proof {
                crate::json::lemma_jval_shape(*other);
                assert forall|rg: RegV| v@ != spec_register_obj(rg) by {
                    if v@ == spec_register_obj(rg) {
                        lemma_register_obj_eval(rg);
                    }
                }
            }
            return Err(Error::FormatError);
        },
    };
    let user = match lookup(ps, &k_user) {
        None => None,
        Some(Json::Null) => None,
        Some(uj) => match parse_user(uj) {
            Ok(u) => Some(u),
            Err(e) => {
                proof {
                    assert forall|rg: RegV| v@ != spec_register_obj(rg) by {
                        if v@ == spec_register_obj(rg) {
                            lemma_register_obj_eval(rg);
                        }
                    }
                }
                return Err(e);
            },
        },
    };
    let is_webauthn = match lookup(ps, &k_webauthn) {
        Some(Json::Bool(b)) => *b,
        Some(other) => {
            proof {
                crate::json::lemma_jval_shape(*other);
                assert forall|rg: RegV| v@ != spec_register_obj(rg) by {
                    if v@ == spec_register_obj(rg) {
                        lemma_register_obj_eval(rg);
                    }
                }
            }
            return Err(Error::FormatError);
        },
        None => {
            proof {
                assert forall|rg: RegV| v@ != spec_register_obj(rg) by {
                    if v@ == spec_register_obj(rg) {
                        lemma_register_obj_eval(rg);
                    }
                }
            }
            return Err(Error::FormatError);
        },
    };
    let out = RegisterRequest { challenge, rp_id, rp_name, user, is_webauthn };
    proof {
        assert forall|rg: RegV| v@ == spec_register_obj(rg) implies (out@ == rg) by {
            lemma_register_obj_eval(rg);
        }
    }
    Ok(out)
}

/// Decodes an array of base64 strings into the blobs they carry.
#[verifier::loop_isolation(false)]
fn decode_blob_list(items: &Vec<Json>) -> (r: Result<Vec<Base64Buffer>, Error>)
    ensures
        r is Err ==> (r matches Err(e) && e is FormatError),
        forall|bs: Seq<Seq<u8>>|
            jvals_of(items@) == spec_blob_arr(bs) ==> (r matches Ok(out) && blobs_view(out@)
                == bs),
{
    proof {
        lemma_jvals_of_index(items@);
    }
    let mut out: Vec<Base64Buffer> = Vec::new();
    let mut i: usize = 0;
    while i < items.len()
        invariant
            i <= items.len(),
            out@.len() == i,
            forall|bs: Seq<Seq<u8>>|
                jvals_of(items@) == spec_blob_arr(bs) ==> (forall|k: int|
                    0 <= k < i ==> out@[k].0@ == bs[k]),
        decreases items.len() - i,
    {
        match &items[i] {
            Json::Str(s) => match Base64Buffer::from_b64(s.as_str()) {
                Ok(b) => {
                    out.push(b);
                    proof {
                        assert forall|bs: Seq<Seq<u8>>|
                            jvals_of(items@) == spec_blob_arr(bs) implies (forall|k: int|
                            0 <= k < i + 1 ==> out@[k].0@ == bs[k]) by {
                            assert(jvals_of(items@)[i as int] == spec_blob_arr(bs)[i as int]);
                        }
                    }
                },
                Err(_) => {
                    proof {
                        assert forall|bs: Seq<Seq<u8>>|
                            jvals_of(items@) != spec_blob_arr(bs) by {
                            if jvals_of(items@) == spec_blob_arr(bs) {
                                assert(jvals_of(items@)[i as int] == spec_blob_arr(
                                    bs,
                                )[i as int]);
                            }
                        }
                    }
                    return Err(Error::FormatError);
                },
            },
            other => {
                proof {
                    crate::json::lemma_jval_shape(*other);
                    assert forall|bs: Seq<Seq<u8>>| jvals_of(items@) != spec_blob_arr(bs) by {
                        if jvals_of(items@) == spec_blob_arr(bs) {
                            assert(jvals_of(items@)[i as int] == spec_blob_arr(bs)[i as int]);
                        }
                    }
                }
                return Err(Error::FormatError);
            },
        }
        i = i + 1;
    }
    proof {
        assert forall|bs: Seq<Seq<u8>>|
            jvals_of(items@) == spec_blob_arr(bs) implies (blobs_view(out@) == bs) by {
            assert(blobs_view(out@) =~= bs);
        }
    }
    Ok(out)
}

/// Parses an authentication payload out of its variant object.
fn parse_auth(v: &Json) -> (r: Result<AuthenticateRequest, Error>)
    ensures
        r is Err ==> (r matches Err(e) && e is FormatError),
        forall|a: AuthV| v@ == spec_auth_obj(a) ==> (r matches Ok(out) && out@ == a),
{
    let ps = match v {
        Json::Obj(ps) => ps,
        _ => {
            proof {
                crate::json::lemma_jval_shape(*v);
            }
            return Err(Error::FormatError);
        },
    };
    let k_challenge: String = "challenge".to_owned();
    let k_app: String = "app_id".to_owned();
    let k_ext: String = "extensions".to_owned();
    let k_kh: String = "key_handle".to_owned();
    let k_khs: String = "key_handles".to_owned();
    let challenge = match take_blob(ps, &k_challenge) {
        Ok(b) => b,
        Err(e) => {
            proof {
                assert forall|a: AuthV| v@ != spec_auth_obj(a) by {
                    if v@ == spec_auth_obj(a) {
                        lemma_auth_obj_eval(a);
                    }
                }
            }
            return Err(e);
        },
    };
    let rp_id = match take_str(ps, &k_app) {
        Ok(s) => s,
        Err(e) => {
            proof {
                assert forall|a: AuthV| v@ != spec_auth_obj(a) by {
                    if v@ == spec_auth_obj(a) {
                        lemma_auth_obj_eval(a);
                    }
                }
            }
            return Err(e);
        },
    };
    let extensions = match lookup(ps, &k_ext) {
        None => None,
        Some(Json::Null) => None,
        Some(ej) => {
            let c = clone_json(ej);
            match c {
                Json::Obj(ms) => Some(ms),
                _ => {
                    proof {
                        crate::json::lemma_jval_shape(*ej);
                        assert forall|a: AuthV| v@ != spec_auth_obj(a) by {
                            if v@ == spec_auth_obj(a) {
                                lemma_auth_obj_eval(a);
                            }
                        }
                    }
                    return Err(Error::FormatError);
                },
            }
        },
    };
    let key_handle = match lookup(ps, &k_kh) {
        None => None,
        Some(Json::Null) => None,
        Some(Json::Str(s)) => match Base64Buffer::from_b64(s.as_str()) {
            Ok(b) => Some(b),
            Err(_) => {
                proof {
                    assert forall|a: AuthV| v@ != spec_auth_obj(a) by {
                        if v@ == spec_auth_obj(a) {
                            lemma_auth_obj_eval(a);
                        }
                    }
                }
                return Err(Error::FormatError);
            },
        },
        Some(other) => {
            proof {
                crate::json::lemma_jval_shape(*other);
                assert forall|a: AuthV| v@ != spec_auth_obj(a) by {
                    if v@ == spec_auth_obj(a) {
                        lemma_auth_obj_eval(a);
                    }
                }
            }
            return Err(Error::FormatError);
        },
    };
    let key_handles = match lookup(ps, &k_khs) {
        None => None,
        Some(Json::Null) => None,
        Some(Json::Arr(items)) => match decode_blob_list(items) {
            Ok(bs) => Some(bs),
            Err(e) => {
                proof {
                    assert forall|a: AuthV| v@ != spec_auth_obj(a) by {
                        if v@ == spec_auth_obj(a) {
                            lemma_auth_obj_eval(a);
                        }
                    }
                }
                return Err(e);
            },
        },
        Some(other) => {
            proof {
                crate::json::lemma_jval_shape(*other);
                assert forall|a: AuthV| v@ != spec_auth_obj(a) by {
                    if v@ == spec_auth_obj(a) {
                        lemma_auth_obj_eval(a);
                    }
                }
            }
            return Err(Error::FormatError);
        },
    };
    let out = AuthenticateRequest { challenge, rp_id, extensions, key_handle, key_handles };
    proof {
        assert forall|a: AuthV| v@ == spec_auth_obj(a) implies (out@ == a) by {
            lemma_auth_obj_eval(a);
        }
    }
    Ok(out)
}

/// Deserializes a request envelope from its flat JSON object: the renamed
/// envelope fields are read back, unknown members are tolerated, and exactly
/// one recognized discriminator key must be present — zero, two or three of
/// them are a format error, as is a discriminator under an unrecognized
/// shape. For every value this crate serializes, deserializing returns an
/// envelope with the same mathematical value.
pub fn request_from_json(j: &Json) -> (r: Result<Request, Error>)
    ensures
        r is Ok ==> (j@ matches JVal::Obj(ms) && request_disc_count(ms) == 1),
        (j@ matches JVal::Obj(ms) && request_disc_count(ms) != 1) ==> (r matches Err(e) && e
            is FormatError),
        !(j@ is Obj) ==> (r matches Err(e) && e is FormatError),
        forall|rv: ReqV| j@ == spec_request_jval(rv) ==> (r matches Ok(req) && req@ == rv),
{
    let ps = match j {
        Json::Obj(ps) => ps,
        _ => {
            proof {
                crate::json::lemma_jval_shape(*j);
            }
            return Err(Error::FormatError);
        },
    };
    let ghost ms = jpairs_of(ps@);
    let n = count_request_disc(ps);
    if n != 1 {
        proof {
            assert forall|rv: ReqV| j@ != spec_request_jval(rv) by {
                if j@ == spec_request_jval(rv) {
                    lemma_request_envelope_eval(rv);
                }
            }
        }
        return Err(Error::FormatError);
    }
    let k_rid: String = "request_id".to_owned();
    let k_unix: String = "unix_seconds".to_owned();
    let k_a: String = "a".to_owned();
    let k_v: String = "v".to_owned();
    let id = match take_str(ps, &k_rid) {
        Ok(s) => s,
        Err(e) => {
            proof {
                assert forall|rv: ReqV| j@ != spec_request_jval(rv) by {
                    if j@ == spec_request_jval(rv) {
                        lemma_request_envelope_eval(rv);
                    }
                }
            }
            return Err(e);
        },
    };
    let unix_seconds = match lookup(ps, &k_unix) {
        Some(Json::Int(x)) => *x,
        Some(other) => {
            proof {
                crate::json::lemma_jval_shape(*other);
                assert forall|rv: ReqV| j@ != spec_request_jval(rv) by {
                    if j@ == spec_request_jval(rv) {
                        lemma_request_envelope_eval(rv);
                    }
                }
            }
            return Err(Error::FormatError);
        },
        None => {
            proof {
                assert forall|rv: ReqV| j@ != spec_request_jval(rv) by {
                    if j@ == spec_request_jval(rv) {
                        lemma_request_envelope_eval(rv);
                    }
                }
            }
            return Err(Error::FormatError);
        },
    };
    let send_ack = match lookup(ps, &k_a) {
        Some(Json::Bool(b)) => *b,
        Some(other) => {
            proof {
                crate::json::lemma_jval_shape(*other);
                assert forall|rv: ReqV| j@ != spec_request_jval(rv) by {
                    if j@ == spec_request_jval(rv) {
                        lemma_request_envelope_eval(rv);
                    }
                }
            }
            return Err(Error::FormatError);
        },
        None => {
            proof {
                assert forall|rv: ReqV| j@ != spec_request_jval(rv) by {
                    if j@ == spec_request_jval(rv) {
                        lemma_request_envelope_eval(rv);
                    }
                }
            }
            return Err(Error::FormatError);
        },
    };
    let version = match take_str(ps, &k_v) {
        Ok(s) => s,
        Err(e) => {
            proof {
                assert forall|rv: ReqV| j@ != spec_request_jval(rv) by {
                    if j@ == spec_request_jval(rv) {
                        lemma_request_envelope_eval(rv);
                    }
                }
            }
            return Err(e);
        },
    };
    let k_me: String = "me_request".to_owned();
    let k_reg: String = "u2f_register_request".to_owned();
    let k_auth: String = "u2f_authenticate_request".to_owned();
    let body: RequestBody = match lookup(ps, &k_me) {
        Some(mv) => match mv {
            Json::Obj(_) => RequestBody::Id(IdRequest {  }),
            _ => {
                proof {
                    crate::json::lemma_jval_shape(*mv);
                    assert forall|rv: ReqV| j@ != spec_request_jval(rv) by {
                        if j@ == spec_request_jval(rv) {
                            lemma_request_envelope_eval(rv);
                        }
                    }
                }
                return Err(Error::FormatError);
            },
        },
        None => match lookup(ps, &k_reg) {
            Some(rj) => match parse_register(rj) {
                Ok(rg) => RequestBody::Register(rg),
                Err(e) => {
                    proof {
                        assert forall|rv: ReqV| j@ != spec_request_jval(rv) by {
                            if j@ == spec_request_jval(rv) {
                                lemma_request_envelope_eval(rv);
                            }
                        }
                    }
                    return Err(e);
                },
            },
            None => match lookup(ps, &k_auth) {
                Some(aj) => match parse_auth(aj) {
                    Ok(a) => RequestBody::Authenticate(a),
                    Err(e) => {
                        proof {
                            assert forall|rv: ReqV| j@ != spec_request_jval(rv) by {
                                if j@ == spec_request_jval(rv) {
                                    lemma_request_envelope_eval(rv);
                                }
                            }
                        }
                        return Err(e);
                    },
                },
                None => {
                    proof {
                        lemma_disc_some(ms);
                    }
                    return Err(Error::FormatError);
                },
            },
        },
    };
    let req = Request { id, unix_seconds, send_ack, version, body };
    proof {
        assert forall|rv: ReqV| j@ == spec_request_jval(rv) implies (req@ == rv) by {
            lemma_request_envelope_eval(rv);
        }
    }
    Ok(req)
}

/// Renders an optional string field, `null` when absent.
fn opt_str_to_json(s: Option<String>) -> (r: Json)
    ensures
        r@ == jopt_str(match s {
            Some(t) => Some(t@),
            None => None::<Seq<char>>,
        }),
{
    match s {
        Some(t) => Json::Str(t),
        None => Json::Null,
    }
}

/// Serializes a request payload into its discriminator member.
fn body_to_json(body: RequestBody) -> (r: (String, Json))
    ensures
        (r.0@, r.1@) == spec_body_member(body@),
{
    match body {
        RequestBody::Id(_) => {
            let obj: Vec<(String, Json)> = Vec::new();
            proof {
                assert(jpairs_of(obj@) =~= Seq::<(Seq<char>, JVal)>::empty());
            }
            ("me_request".to_owned(), Json::Obj(obj))
        },
        RequestBody::Register(rg) => {
            let ghost rgv = rg@;
            let RegisterRequest { challenge, rp_id, rp_name, user, is_webauthn } = rg;
            let mut ps: Vec<(String, Json)> = Vec::new();
            ps.push(("challenge".to_owned(), Json::Str(challenge.to_string())));
            ps.push(("app_id".to_owned(), Json::Str(rp_id)));
            ps.push(("rp_name".to_owned(), opt_str_to_json(rp_name)));
            let user_json = match user {
                Some(u) => {
                    let ghost uv = u@;
                    let UserData { id, display_name } = u;
                    let mut ups: Vec<(String, Json)> = Vec::new();
                    ups.push(("id".to_owned(), Json::Str(id.to_string())));
                    ups.push(("display_name".to_owned(), Json::Str(display_name)));
                    proof {
                        lemma_jpairs_of_index(ups@);
                        assert(jpairs_of(ups@) =~= spec_user_obj(uv)->Obj_0);
                    }
                    Json::Obj(ups)
                },
                None => Json::Null,
            };
            ps.push(("user".to_owned(), user_json));
            ps.push(("webauthn".to_owned(), Json::Bool(is_webauthn)));
            proof {
                lemma_jpairs_of_index(ps@);
                assert(jpairs_of(ps@) =~= spec_register_obj(rgv)->Obj_0);
            }
            ("u2f_register_request".to_owned(), Json::Obj(ps))
        },
        RequestBody::Authenticate(a) => {
            let ghost av = a@;
            let AuthenticateRequest { challenge, rp_id, extensions, key_handle, key_handles } = a;
            let mut ps: Vec<(String, Json)> = Vec::new();
            ps.push(("challenge".to_owned(), Json::Str(challenge.to_string())));
            ps.push(("app_id".to_owned(), Json::Str(rp_id)));
            let ext_json = match extensions {
                Some(ms) => Json::Obj(ms),
                None => Json::Null,
            };
            ps.push(("extensions".to_owned(), ext_json));
            let kh_json = match key_handle {
                Some(b) => Json::Str(b.to_string()),
                None => Json::Null,
            };
            ps.push(("key_handle".to_owned(), kh_json));
            let khs_json = match key_handles {
                Some(bs) => {
                    let ghost bsv = blobs_view(bs@);
                    let mut items: Vec<Json> = Vec::new();
                    let mut i: usize = 0;
                    while i < bs.len()
                        invariant
                            i <= bs.len(),
                            items@.len() == i,
                            bsv == blobs_view(bs@),
                            bsv.len() == bs@.len(),
                            forall|k: int| 0 <= k < i ==> items@[k].jval() == jblob(bsv[k]),
                        decreases bs.len() - i,
                    {
                        items.push(Json::Str(bs[i].to_string()));
                        i = i + 1;
                    }
                    proof {
                        lemma_jvals_of_index(items@);
                        assert(jvals_of(items@) =~= spec_blob_arr(bsv));
                    }
                    Json::Arr(items)
                },
                None => Json::Null,
            };
            ps.push(("key_handles".to_owned(), khs_json));
            proof {
                lemma_jpairs_of_index(ps@);
                assert(jpairs_of(ps@) =~= spec_auth_obj(av)->Obj_0);
            }
            ("u2f_authenticate_request".to_owned(), Json::Obj(ps))
        },
    }
}

/// Serializes a request envelope into its flat JSON object: the renamed
/// envelope fields (`request_id`, `unix_seconds`, `a`, `v`) and exactly one
/// discriminator member as siblings.
pub fn request_to_json(req: Request) -> (j: Json)
    ensures
        j@ == spec_request_jval(req@),
{
    let ghost rv = req@;
    let Request { id, unix_seconds, send_ack, version, body } = req;
    let mut ps: Vec<(String, Json)> = Vec::new();
    ps.push(("request_id".to_owned(), Json::Str(id)));
    ps.push(("unix_seconds".to_owned(), Json::Int(unix_seconds)));
    ps.push(("a".to_owned(), Json::Bool(send_ack)));
    ps.push(("v".to_owned(), Json::Str(version)));
    let member = body_to_json(body);
    ps.push(member);
    proof {
        lemma_jpairs_of_index(ps@);
        assert(jpairs_of(ps@) =~= spec_request_jval(rv)->Obj_0);
    }
    Json::Obj(ps)
}

/// Mathematical model of a result wrapper.
pub struct ClientResultV<T> {
    pub contents: Option<T>,
    pub error: Option<Seq<char>>,
}

impl<T: View> View for ClientResult<T> {
    type V = ClientResultV<<T as View>::V>;

    open spec fn view(&self) -> ClientResultV<<T as View>::V> {
        ClientResultV {
            contents: match self.spec_contents() {
                Some(c) => Some(c@),
                None => None,
            },
            error: match self.spec_error() {
                Some(e) => Some(e@),
                None => None,
            },
        }
    }
}

/// Mathematical model of an identity reply.
pub struct IdRespV {
    pub email: Seq<char>,
    pub device_identifier: Seq<u8>,
}

impl View for IdData {
    type V = IdRespV;

    open spec fn view(&self) -> IdRespV {
        IdRespV { email: self.email@, device_identifier: self.device_identifier.0@ }
    }
}

impl View for IdResponse {
    type V = IdRespV;

    open spec fn view(&self) -> IdRespV {
        self.data@
    }
}

/// Mathematical model of a registration reply.
pub struct RegRespV {
    pub public_key: Seq<u8>,
    pub key_handle: Seq<u8>,
    pub attestation_certificate: Seq<u8>,
    pub signature: Seq<u8>,
    pub attestation_data: Seq<u8>,
}

impl View for RegisterResponse {
    type V = RegRespV;

    open spec fn view(&self) -> RegRespV {
        RegRespV {
            public_key: self.public_key.0@,
            key_handle: self.key_handle.0@,
            attestation_certificate: self.attestation_certificate.0@,
            signature: self.signature.0@,
            attestation_data: self.attestation_data.0@,
        }
    }
}

/// Mathematical model of an authentication reply.
pub struct AuthRespV {
    pub public_key: Seq<u8>,
    pub counter: u32,
    pub signature: Seq<u8>,
    pub key_handle: Seq<u8>,
    pub user_handle: Option<Seq<u8>>,
    pub authenticator_data: Seq<u8>,
}

impl View for AuthenticateResponse {
    type V = AuthRespV;

    open spec fn view(&self) -> AuthRespV {
        AuthRespV {
            public_key: self.public_key.0@,
            counter: self.counter,
            signature: self.signature.0@,
            key_handle: self.key_handle.0@,
            user_handle: match self.user_handle {
                Some(b) => Some(b.0@),
                None => None,
            },
            authenticator_data: self.authenticator_data.0@,
        }
    }
}

/// Mathematical model of a response payload.
pub enum RespBodyV {
    Id(ClientResultV<IdRespV>),
    Register(ClientResultV<RegRespV>),
    Authenticate(ClientResultV<AuthRespV>),
}

impl View for ResponseBody {
    type V = RespBodyV;

    open spec fn view(&self) -> RespBodyV {
        match self {
            ResponseBody::Id(cr) => RespBodyV::Id(cr@),
            ResponseBody::Register(cr) => RespBodyV::Register(cr@),
            ResponseBody::Authenticate(cr) => RespBodyV::Authenticate(cr@),
        }
    }
}

/// Mathematical model of a response envelope.
pub struct RespV {
    pub request_id: Seq<char>,
    pub aws_push_id: Option<Seq<char>>,
    pub device_token: Option<Seq<char>>,
    pub version: Seq<char>,
    pub body: RespBodyV,
}

impl View for Response {
    type V = RespV;

    open spec fn view(&self) -> RespV {
        RespV {
            request_id: self.request_id@,
            aws_push_id: match self.aws_push_id {
                Some(s) => Some(s@),
                None => None,
            },
            device_token: match self.device_token {
                Some(s) => Some(s@),
                None => None,
            },
            version: self.version@,
            body: self.body@,
        }
    }
}

/// Whether `k` is one of the three response discriminator keys.
pub open spec fn is_response_disc_key(k: Seq<char>) -> bool {
    k == "me_response"@ || k == "u2f_register_response"@ || k == "u2f_authenticate_response"@
}

/// How many members of a JSON object carry a response discriminator key.
pub open spec fn response_disc_count(ms: Seq<(Seq<char>, JVal)>) -> int
    decreases ms.len(),
{
    if ms.len() == 0 {
        0
    } else {
        (if is_response_disc_key(ms[0].0) {
            1int
        } else {
            0int
        }) + response_disc_count(ms.drop_first())
    }
}

/// The object stored under an identity-reply data key.
pub open spec fn spec_id_data_obj(d: IdRespV) -> JVal {
    JVal::Obj(
        seq![
            ("email"@, JVal::Str(d.email)),
            ("device_identifier"@, jblob(d.device_identifier)),
        ],
    )
}

/// The result-wrapped variant object of an identity reply: the contents'
/// members, if any, flattened beside the error member.
pub open spec fn spec_id_cr_obj(cr: ClientResultV<IdRespV>) -> JVal {
    JVal::Obj(
        (match cr.contents {
            Some(c) => seq![("me"@, spec_id_data_obj(c))],
            None => Seq::<(Seq<char>, JVal)>::empty(),
        }) + seq![("error"@, jopt_str(cr.error))],
    )
}

/// The result-wrapped variant object of a registration reply.
pub open spec fn spec_register_cr_obj(cr: ClientResultV<RegRespV>) -> JVal {
    JVal::Obj(
        (match cr.contents {
            Some(c) => seq![
                ("public_key"@, jblob(c.public_key)),
                ("key_handle"@, jblob(c.key_handle)),
                ("attestation_certificate"@, jblob(c.attestation_certificate)),
                ("signature"@, jblob(c.signature)),
                ("attestation_data"@, jblob(c.attestation_data)),
            ],
            None => Seq::<(Seq<char>, JVal)>::empty(),
        }) + seq![("error"@, jopt_str(cr.error))],
    )
}

/// The result-wrapped variant object of an authentication reply.
pub open spec fn spec_auth_cr_obj(cr: ClientResultV<AuthRespV>) -> JVal {
    JVal::Obj(
        (match cr.contents {
            Some(c) => seq![
                ("public_key"@, jblob(c.public_key)),
                ("counter"@, JVal::Int(c.counter as i64)),
                ("signature"@, jblob(c.signature)),
                ("key_handle"@, jblob(c.key_handle)),
                (
                    "user_handle"@,
                    match c.user_handle {
                        Some(b) => jblob(b),
                        None => JVal::Null,
                    },
                ),
                ("authenticator_data"@, jblob(c.authenticator_data)),
            ],
            None => Seq::<(Seq<char>, JVal)>::empty(),
        }) + seq![("error"@, jopt_str(cr.error))],
    )
}

/// The discriminator member a response payload contributes to the envelope.
pub open spec fn spec_resp_body_member(b: RespBodyV) -> (Seq<char>, JVal) {
    match b {
        RespBodyV::Id(cr) => ("me_response"@, spec_id_cr_obj(cr)),
        RespBodyV::Register(cr) => ("u2f_register_response"@, spec_register_cr_obj(cr)),
        RespBodyV::Authenticate(cr) => ("u2f_authenticate_response"@, spec_auth_cr_obj(cr)),
    }
}

/// The flat JSON object a response envelope serializes to.
pub open spec fn spec_response_jval(rv: RespV) -> JVal {
    JVal::Obj(
        seq![
            ("request_id"@, JVal::Str(rv.request_id)),
            ("sns_endpoint_arn"@, jopt_str(rv.aws_push_id)),
            ("device_token"@, jopt_str(rv.device_token)),
            ("v"@, JVal::Str(rv.version)),
            spec_resp_body_member(rv.body),
        ],
    )
}

/// Serializes the result-wrapped identity reply.
fn id_cr_to_json(cr: ClientResult<IdResponse>) -> (r: Json)
    ensures
        r@ == spec_id_cr_obj(cr@),
{
    let ghost crv = cr@;
    let ClientResult { contents, error } = cr;
    let mut ps: Vec<(String, Json)> = Vec::new();
    match contents {
        Some(c) => {
            let ghost dv = c@;
            let IdResponse { data } = c;
            let IdData { email, device_identifier } = data;
            let mut dps: Vec<(String, Json)> = Vec::new();
            dps.push(("email".to_owned(), Json::Str(email)));
            dps.push(("device_identifier".to_owned(), Json::Str(device_identifier.to_string())));
            proof {
                lemma_jpairs_of_index(dps@);
                assert(jpairs_of(dps@) =~= spec_id_data_obj(dv)->Obj_0);
            }
            ps.push(("me".to_owned(), Json::Obj(dps)));
        },
        None => {},
    }
    ps.push(("error".to_owned(), opt_str_to_json(error)));
    proof {
        lemma_jpairs_of_index(ps@);
        assert(jpairs_of(ps@) =~= spec_id_cr_obj(crv)->Obj_0);
    }
    Json::Obj(ps)
}

/// Serializes the result-wrapped registration reply.
fn register_cr_to_json(cr: ClientResult<RegisterResponse>) -> (r: Json)
    ensures
        r@ == spec_register_cr_obj(cr@),
{
    let ghost crv = cr@;
    let ClientResult { contents, error } = cr;
    let mut ps: Vec<(String, Json)> = Vec::new();
    match contents {
        Some(c) => {
            let RegisterResponse {
                public_key,
                key_handle,
                attestation_certificate,
                signature,
                attestation_data,
            } = c;
            ps.push(("public_key".to_owned(), Json::Str(public_key.to_string())));
            ps.push(("key_handle".to_owned(), Json::Str(key_handle.to_string())));
            ps.push(
                (
                    "attestation_certificate".to_owned(),
                    Json::Str(attestation_certificate.to_string()),
                ),
            );
            ps.push(("signature".to_owned(), Json::Str(signature.to_string())));
            ps.push(("attestation_data".to_owned(), Json::Str(attestation_data.to_string())));
        },
        None => {},
    }
    ps.push(("error".to_owned(), opt_str_to_json(error)));
    proof {
        lemma_jpairs_of_index(ps@);
        assert(jpairs_of(ps@) =~= spec_register_cr_obj(crv)->Obj_0);
    }
    Json::Obj(ps)
}

/// Serializes the result-wrapped authentication reply.
fn auth_cr_to_json(cr: ClientResult<AuthenticateResponse>) -> (r: Json)
    ensures
        r@ == spec_auth_cr_obj(cr@),
{
    let ghost crv = cr@;
    let ClientResult { contents, error } = cr;
    let mut ps: Vec<(String, Json)> = Vec::new();
    match contents {
        Some(c) => {
            let AuthenticateResponse {
                public_key,
                counter,
                signature,
                key_handle,
                user_handle,
                authenticator_data,
            } = c;
            ps.push(("public_key".to_owned(), Json::Str(public_key.to_string())));
            ps.push(("counter".to_owned(), Json::Int(counter as i64)));
            ps.push(("signature".to_owned(), Json::Str(signature.to_string())));
            ps.push(("key_handle".to_owned(), Json::Str(key_handle.to_string())));
            let uh = match user_handle {
                Some(b) => Json::Str(b.to_string()),
                None => Json::Null,
            };
            ps.push(("user_handle".to_owned(), uh));
            ps.push(("authenticator_data".to_owned(), Json::Str(authenticator_data.to_string())));
        },
        None => {},
    }
    ps.push(("error".to_owned(), opt_str_to_json(error)));
    proof {
        lemma_jpairs_of_index(ps@);
        assert(jpairs_of(ps@) =~= spec_auth_cr_obj(crv)->Obj_0);
    }
    Json::Obj(ps)
}

/// Serializes a response envelope into its flat JSON object, mirroring the
/// request layout with the response discriminator keys.
pub fn response_to_json(resp: Response) -> (j: Json)
    ensures
        j@ == spec_response_jval(resp@),
{
    let ghost rv = resp@;
    let Response { request_id, aws_push_id, device_token, version, body } = resp;
    let mut ps: Vec<(String, Json)> = Vec::new();
    ps.push(("request_id".to_owned(), Json::Str(request_id)));
    ps.push(("sns_endpoint_arn".to_owned(), opt_str_to_json(aws_push_id)));
    ps.push(("device_token".to_owned(), opt_str_to_json(device_token)));
    ps.push(("v".to_owned(), Json::Str(version)));
    let member = match body {
        ResponseBody::Id(cr) => ("me_response".to_owned(), id_cr_to_json(cr)),
        ResponseBody::Register(cr) => ("u2f_register_response".to_owned(), register_cr_to_json(cr)),
        ResponseBody::Authenticate(cr) => (
            "u2f_authenticate_response".to_owned(),
            auth_cr_to_json(cr),
        ),
    };
    ps.push(member);
    proof {
        lemma_jpairs_of_index(ps@);
        assert(jpairs_of(ps@) =~= spec_response_jval(rv)->Obj_0);
    }
    Json::Obj(ps)
}

/// Evaluates the member lookups on a serialized response envelope.
proof fn lemma_response_envelope_eval(rv: RespV)
    ensures
        ({
            let ms = spec_response_jval(rv)->Obj_0;
            &&& spec_lookup(ms, "request_id"@) == Some(JVal::Str(rv.request_id))
            &&& spec_lookup(ms, "sns_endpoint_arn"@) == Some(jopt_str(rv.aws_push_id))
            &&& spec_lookup(ms, "device_token"@) == Some(jopt_str(rv.device_token))
            &&& spec_lookup(ms, "v"@) == Some(JVal::Str(rv.version))
            &&& spec_lookup(ms, "me_response"@) == (if rv.body is Id {
                Some(spec_resp_body_member(rv.body).1)
            } else {
                None::<JVal>
            })
            &&& spec_lookup(ms, "u2f_register_response"@) == (if rv.body is Register {
                Some(spec_resp_body_member(rv.body).1)
            } else {
                None::<JVal>
            })
            &&& spec_lookup(ms, "u2f_authenticate_response"@) == (if rv.body is Authenticate {
                Some(spec_resp_body_member(rv.body).1)
            } else {
                None::<JVal>
            })
            &&& response_disc_count(ms) == 1
        }),
{
    reveal_strlit("request_id");
    reveal_strlit("sns_endpoint_arn");
    reveal_strlit("device_token");
    reveal_strlit("v");
    reveal_strlit("me_response");
    reveal_strlit("u2f_register_response");
    reveal_strlit("u2f_authenticate_response");
    reveal_with_fuel(spec_lookup, 7);
    reveal_with_fuel(response_disc_count, 7);
    assert("request_id"@.len() == 10);
    assert("sns_endpoint_arn"@.len() == 16);
    assert("device_token"@.len() == 12);
    assert("v"@.len() == 1);
    assert("me_response"@.len() == 11);
    assert("u2f_register_response"@.len() == 21);
    assert("u2f_authenticate_response"@.len() == 25);
    let ms = spec_response_jval(rv)->Obj_0;
    assert(ms.drop_first() =~= ms.skip(1));
    assert(ms.skip(1).drop_first() =~= ms.skip(2));
    assert(ms.skip(2).drop_first() =~= ms.skip(3));
    assert(ms.skip(3).drop_first() =~= ms.skip(4));
    assert(ms.skip(4).drop_first() =~= ms.skip(5));
    assert(ms.skip(5) =~= Seq::<(Seq<char>, JVal)>::empty());
}

/// Evaluates the member lookups on a result-wrapped identity reply.
proof fn lemma_id_cr_eval(cr: ClientResultV<IdRespV>)
    ensures
        ({
            let ms = spec_id_cr_obj(cr)->Obj_0;
            &&& spec_lookup(ms, "me"@) == (match cr.contents {
                Some(c) => Some(spec_id_data_obj(c)),
                None => None::<JVal>,
            })
            &&& spec_lookup(ms, "error"@) == Some(jopt_str(cr.error))
        }),
{
    reveal_strlit("me");
    reveal_strlit("error");
    reveal_with_fuel(spec_lookup, 4);
    assert("me"@.len() == 2);
    assert("error"@.len() == 5);
    let ms = spec_id_cr_obj(cr)->Obj_0;
    if cr.contents is Some {
        assert(ms.drop_first() =~= ms.skip(1));
        assert(ms.skip(1) =~= seq![("error"@, jopt_str(cr.error))]);
        assert(ms.skip(1).drop_first() =~= Seq::<(Seq<char>, JVal)>::empty());
    } else {
        assert(ms =~= seq![("error"@, jopt_str(cr.error))]);
        assert(ms.drop_first() =~= Seq::<(Seq<char>, JVal)>::empty());
    }
}

/// Evaluates the member lookups on a serialized identity-reply data object.
proof fn lemma_id_data_eval(d: IdRespV)
    ensures
        ({
            let ms = spec_id_data_obj(d)->Obj_0;
            &&& spec_lookup(ms, "email"@) == Some(JVal::Str(d.email))
            &&& spec_lookup(ms, "device_identifier"@) == Some(jblob(d.device_identifier))
        }),
{
    reveal_strlit("email");
    reveal_strlit("device_identifier");
    reveal_with_fuel(spec_lookup, 4);
    assert("email"@.len() == 5);
    assert("device_identifier"@.len() == 17);
    let ms = spec_id_data_obj(d)->Obj_0;
    assert(ms.drop_first() =~= ms.skip(1));
    assert(ms.skip(1) =~= seq![("device_identifier"@, jblob(d.device_identifier))]);
}

/// Evaluates the member lookups on a result-wrapped registration reply.
proof fn lemma_register_cr_eval(cr: ClientResultV<RegRespV>)
    ensures
        ({
            let ms = spec_register_cr_obj(cr)->Obj_0;
            &&& spec_lookup(ms, "public_key"@) == (match cr.contents {
                Some(c) => Some(jblob(c.public_key)),
                None => None::<JVal>,
            })
            &&& spec_lookup(ms, "key_handle"@) == (match cr.contents {
                Some(c) => Some(jblob(c.key_handle)),
                None => None::<JVal>,
            })
            &&& spec_lookup(ms, "attestation_certificate"@) == (match cr.contents {
                Some(c) => Some(jblob(c.attestation_certificate)),
                None => None::<JVal>,
            })
            &&& spec_lookup(ms, "signature"@) == (match cr.contents {
                Some(c) => Some(jblob(c.signature)),
                None => None::<JVal>,
            })
            &&& spec_lookup(ms, "attestation_data"@) == (match cr.contents {
                Some(c) => Some(jblob(c.attestation_data)),
                None => None::<JVal>,
            })
            &&& spec_lookup(ms, "error"@) == Some(jopt_str(cr.error))
        }),
{
    reveal_strlit("public_key");
    reveal_strlit("key_handle");
    reveal_strlit("attestation_certificate");
    reveal_strlit("signature");
    reveal_strlit("attestation_data");
    reveal_strlit("error");
    reveal_with_fuel(spec_lookup, 8);
    assert("public_key"@.len() == 10);
    assert("key_handle"@.len() == 10);
    assert("attestation_certificate"@.len() == 23);
    assert("signature"@.len() == 9);
    assert("attestation_data"@.len() == 16);
    assert("error"@.len() == 5);
    assert("public_key"@[0] == 'p');
    assert("key_handle"@[0] == 'k');
    let ms = spec_register_cr_obj(cr)->Obj_0;
    if cr.contents is Some {
        assert(ms.drop_first() =~= ms.skip(1));
        assert(ms.skip(1).drop_first() =~= ms.skip(2));
        assert(ms.skip(2).drop_first() =~= ms.skip(3));
        assert(ms.skip(3).drop_first() =~= ms.skip(4));
        assert(ms.skip(4).drop_first() =~= ms.skip(5));
        assert(ms.skip(5) =~= seq![("error"@, jopt_str(cr.error))]);
        assert(ms.skip(5).drop_first() =~= Seq::<(Seq<char>, JVal)>::empty());
    } else {
        assert(ms =~= seq![("error"@, jopt_str(cr.error))]);
        assert(ms.drop_first() =~= Seq::<(Seq<char>, JVal)>::empty());
    }
}

/// Evaluates the member lookups on a result-wrapped authentication reply.
proof fn lemma_auth_cr_eval(cr: ClientResultV<AuthRespV>)
    ensures
        ({
            let ms = spec_auth_cr_obj(cr)->Obj_0;
            &&& spec_lookup(ms, "public_key"@) == (match cr.contents {
                Some(c) => Some(jblob(c.public_key)),
                None => None::<JVal>,
            })
            &&& spec_lookup(ms, "counter"@) == (match cr.contents {
                Some(c) => Some(JVal::Int(c.counter as i64)),
                None => None::<JVal>,
            })
            &&& spec_lookup(ms, "signature"@) == (match cr.contents {
                Some(c) => Some(jblob(c.signature)),
                None => None::<JVal>,
            })
            &&& spec_lookup(ms, "key_handle"@) == (match cr.contents {
                Some(c) => Some(jblob(c.key_handle)),
                None => None::<JVal>,
            })
            &&& spec_lookup(ms, "user_handle"@) == (match cr.contents {
                Some(c) => Some(
                    match c.user_handle {
                        Some(b) => jblob(b),
                        None => JVal::Null,
                    },
                ),
                None => None::<JVal>,
            })
            &&& spec_lookup(ms, "authenticator_data"@) == (match cr.contents {
                Some(c) => Some(jblob(c.authenticator_data)),
                None => None::<JVal>,
            })
            &&& spec_lookup(ms, "error"@) == Some(jopt_str(cr.error))
        }),
{
    reveal_strlit("public_key");
    reveal_strlit("counter");
    reveal_strlit("signature");
    reveal_strlit("key_handle");
    reveal_strlit("user_handle");
    reveal_strlit("authenticator_data");
    reveal_strlit("error");
    reveal_with_fuel(spec_lookup, 9);
    assert("public_key"@.len() == 10);
    assert("counter"@.len() == 7);
    assert("signature"@.len() == 9);
    assert("key_handle"@.len() == 10);
    assert("user_handle"@.len() == 11);
    assert("authenticator_data"@.len() == 18);
    assert("error"@.len() == 5);
    assert("public_key"@[0] == 'p');
    assert("key_handle"@[0] == 'k');
    let ms = spec_auth_cr_obj(cr)->Obj_0;
    if cr.contents is Some {
        assert(ms.drop_first() =~= ms.skip(1));
        assert(ms.skip(1).drop_first() =~= ms.skip(2));
        assert(ms.skip(2).drop_first() =~= ms.skip(3));
        assert(ms.skip(3).drop_first() =~= ms.skip(4));
        assert(ms.skip(4).drop_first() =~= ms.skip(5));
        assert(ms.skip(5).drop_first() =~= ms.skip(6));
        assert(ms.skip(6) =~= seq![("error"@, jopt_str(cr.error))]);
        assert(ms.skip(6).drop_first() =~= Seq::<(Seq<char>, JVal)>::empty());
    } else {
        assert(ms =~= seq![("error"@, jopt_str(cr.error))]);
        assert(ms.drop_first() =~= Seq::<(Seq<char>, JVal)>::empty());
    }
}

/// Extending a prefix by one member adds that member's contribution to the
/// response discriminator count.
proof fn lemma_resp_disc_count_take_step(ms: Seq<(Seq<char>, JVal)>, i: int)
    requires
        0 <= i < ms.len(),
    ensures
        response_disc_count(ms.take(i + 1)) == response_disc_count(ms.take(i)) + (
        if is_response_disc_key(ms[i].0) {
            1int
        } else {
            0int
        }),
    decreases i,
{
    let a = ms.take(i + 1);
    if i == 0 {
        assert(a.drop_first() =~= ms.take(0));
        assert(ms.take(0) =~= Seq::<(Seq<char>, JVal)>::empty());
    } else {
        lemma_resp_disc_count_take_step(ms.drop_first(), i - 1);
        assert(a.drop_first() =~= ms.drop_first().take(i));
        assert(ms.take(i).drop_first() =~= ms.drop_first().take(i - 1));
    }
}

/// An object with a positive response discriminator count answers at least
/// one of the three discriminator lookups.
proof fn lemma_resp_disc_some(ms: Seq<(Seq<char>, JVal)>)
    requires
        response_disc_count(ms) > 0,
    ensures
        spec_lookup(ms, "me_response"@) is Some || spec_lookup(ms, "u2f_register_response"@)
            is Some || spec_lookup(ms, "u2f_authenticate_response"@) is Some,
    decreases ms.len(),
{
    if ms.len() > 0 {
        if !is_response_disc_key(ms[0].0) {
            lemma_resp_disc_some(ms.drop_first());
        }
    }
}

/// Counts the members of a response object that carry a discriminator key.
#[verifier::loop_isolation(false)]
fn count_response_disc(ps: &Vec<(String, Json)>) -> (n: usize)
    ensures
        n as int == response_disc_count(jpairs_of(ps@)),
{
    proof {
        lemma_jpairs_of_index(ps@);
    }
    let ghost ms = jpairs_of(ps@);
    let me_key: String = "me_response".to_owned();
    let reg_key: String = "u2f_register_response".to_owned();
    let auth_key: String = "u2f_authenticate_response".to_owned();
    let mut n: usize = 0;
    let mut i: usize = 0;
    assert(ms.take(0) =~= Seq::<(Seq<char>, JVal)>::empty());
    while i < ps.len()
        invariant
            i <= ps.len(),
            n <= i,
            n as int == response_disc_count(ms.take(i as int)),
        decreases ps.len() - i,
    {
        proof {
            lemma_resp_disc_count_take_step(ms, i as int);
        }
        let is_disc = ps[i].0.eq(&me_key) || ps[i].0.eq(&reg_key) || ps[i].0.eq(&auth_key);
        if is_disc {
            n = n + 1;
        }
        i = i + 1;
    }
    assert(ms.take(ps@.len() as int) =~= ms);
    n
}

/// Reads a member that is an optional string: absent or `null` is `None`.
fn take_opt_str(ps: &Vec<(String, Json)>, key: &String) -> (r: Result<Option<String>, Error>)
    ensures
        r is Err ==> (r matches Err(e) && e is FormatError),
        r matches Ok(s) ==> match s {
            Some(t) => spec_lookup(jpairs_of(ps@), key@) == Some(JVal::Str(t@)),
            None => spec_lookup(jpairs_of(ps@), key@) is None || spec_lookup(
                jpairs_of(ps@),
                key@,
            ) == Some(JVal::Null),
        },
        r is Err ==> !(spec_lookup(jpairs_of(ps@), key@) matches Some(v) && (v is Str || v
            is Null)) && !(spec_lookup(jpairs_of(ps@), key@) is None),
{
    match lookup(ps, key) {
        None => Ok(None),
        Some(Json::Null) => Ok(None),
        Some(Json::Str(s)) => Ok(Some(clone_string(s))),
        Some(other) => {
            proof {
                crate::json::lemma_jval_shape(*other);
            }
            Err(Error::FormatError)
        },
    }
}

/// Parses the identity-reply data object.
fn parse_id_data(v: &Json) -> (r: Result<IdData, Error>)
    ensures
        r is Err ==> (r matches Err(e) && e is FormatError),
        forall|d: IdRespV| v@ == spec_id_data_obj(d) ==> (r matches Ok(out) && out@ == d),
{
    let ps = match v {
        Json::Obj(ps) => ps,
        _ => {
            proof {
                crate::json::lemma_jval_shape(*v);
            }
            return Err(Error::FormatError);
        },
    };
    let k_email: String = "email".to_owned();
    let k_di: String = "device_identifier".to_owned();
    let email = match take_str(ps, &k_email) {
        Ok(s) => s,
        Err(e) => {
            proof {
                assert forall|d: IdRespV| v@ != spec_id_data_obj(d) by {
                    if v@ == spec_id_data_obj(d) {
                        lemma_id_data_eval(d);
                    }
                }
            }
            return Err(e);
        },
    };
    let device_identifier = match take_blob(ps, &k_di) {
        Ok(b) => b,
        Err(e) => {
            proof {
                assert forall|d: IdRespV| v@ != spec_id_data_obj(d) by {
                    if v@ == spec_id_data_obj(d) {
                        lemma_id_data_eval(d);
                    }
                }
            }
            return Err(e);
        },
    };
    let out = IdData { email, device_identifier };
    proof {
        assert forall|d: IdRespV| v@ == spec_id_data_obj(d) implies (out@ == d) by {
            lemma_id_data_eval(d);
        }
    }
    Ok(out)
}

/// Parses the result-wrapped identity reply.
fn parse_id_cr(v: &Json) -> (r: Result<ClientResult<IdResponse>, Error>)
    ensures
        r is Err ==> (r matches Err(e) && e is FormatError),
        forall|cr: ClientResultV<IdRespV>|
            v@ == spec_id_cr_obj(cr) ==> (r matches Ok(out) && out@ == cr),
{
    let ps = match v {
        Json::Obj(ps) => ps,
        _ => {
            proof {
                crate::json::lemma_jval_shape(*v);
            }
            return Err(Error::FormatError);
        },
    };
    let k_error: String = "error".to_owned();
    let error = match take_opt_str(ps, &k_error) {
        Ok(e) => e,
        Err(e) => {
            proof {
                assert forall|cr: ClientResultV<IdRespV>| v@ != spec_id_cr_obj(cr) by {
                    if v@ == spec_id_cr_obj(cr) {
                        lemma_id_cr_eval(cr);
                    }
                }
            }
            return Err(e);
        },
    };
    let k_me: String = "me".to_owned();
    let contents = match lookup(ps, &k_me) {
        None => None,
        Some(dj) => match parse_id_data(dj) {
            Ok(d) => Some(IdResponse { data: d }),
            Err(e) => {
                proof {
                    assert forall|cr: ClientResultV<IdRespV>| v@ != spec_id_cr_obj(cr) by {
                        if v@ == spec_id_cr_obj(cr) {
                            lemma_id_cr_eval(cr);
                        }
                    }
                }
                return Err(e);
            },
        },
    };
    let out = ClientResult::new(contents, error);
    proof {
        assert forall|cr: ClientResultV<IdRespV>| v@ == spec_id_cr_obj(cr) implies (out@
            == cr) by {
            lemma_id_cr_eval(cr);
        }
    }
    Ok(out)
}

/// Parses the result-wrapped registration reply: the contents are taken as
/// present exactly when the first required member is, and every required
/// member must then decode.
fn parse_register_cr(v: &Json) -> (r: Result<ClientResult<RegisterResponse>, Error>)
    ensures
        r is Err ==> (r matches Err(e) && e is FormatError),
        forall|cr: ClientResultV<RegRespV>|
            v@ == spec_register_cr_obj(cr) ==> (r matches Ok(out) && out@ == cr),
{
    let ps = match v {
        Json::Obj(ps) => ps,
        _ => {
            proof {
                crate::json::lemma_jval_shape(*v);
            }
            return Err(Error::FormatError);
        },
    };
    let k_error: String = "error".to_owned();
    let error = match take_opt_str(ps, &k_error) {
        Ok(e) => e,
        Err(e) => {
            proof {
                assert forall|cr: ClientResultV<RegRespV>| v@ != spec_register_cr_obj(cr) by {
                    if v@ == spec_register_cr_obj(cr) {
                        lemma_register_cr_eval(cr);
                    }
                }
            }
            return Err(e);
        },
    };
    let k_pk: String = "public_key".to_owned();
    let k_kh: String = "key_handle".to_owned();
    let k_ac: String = "attestation_certificate".to_owned();
    let k_sig: String = "signature".to_owned();
    let k_ad: String = "attestation_data".to_owned();
    let contents = match lookup(ps, &k_pk) {
        None => None,
        Some(_) => {
            let public_key = match take_blob(ps, &k_pk) {
                Ok(b) => b,
                Err(e) => {
                    proof {
                        assert forall|cr: ClientResultV<RegRespV>|
                            v@ != spec_register_cr_obj(cr) by {
                            if v@ == spec_register_cr_obj(cr) {
                                lemma_register_cr_eval(cr);
                            }
                        }
                    }
                    return Err(e);
                },
            };
            let key_handle = match take_blob(ps, &k_kh) {
                Ok(b) => b,
                Err(e) => {
                    proof {
                        assert forall|cr: ClientResultV<RegRespV>|
                            v@ != spec_register_cr_obj(cr) by {
                            if v@ == spec_register_cr_obj(cr) {
                                lemma_register_cr_eval(cr);
                            }
                        }
                    }
                    return Err(e);
                },
            };
            let attestation_certificate = match take_blob(ps, &k_ac) {
                Ok(b) => b,
                Err(e) => {
                    proof {
                        assert forall|cr: ClientResultV<RegRespV>|
                            v@ != spec_register_cr_obj(cr) by {
                            if v@ == spec_register_cr_obj(cr) {
                                lemma_register_cr_eval(cr);
                            }
                        }
                    }
                    return Err(e);
                },
            };
            let signature = match take_blob(ps, &k_sig) {
                Ok(b) => b,
                Err(e) => {
                    proof {
                        assert forall|cr: ClientResultV<RegRespV>|
                            v@ != spec_register_cr_obj(cr) by {
                            if v@ == spec_register_cr_obj(cr) {
                                lemma_register_cr_eval(cr);
                            }
                        }
                    }
                    return Err(e);
                },
            };
            let attestation_data = match take_blob(ps, &k_ad) {
                Ok(b) => b,
                Err(e) => {
                    proof {
                        assert forall|cr: ClientResultV<RegRespV>|
                            v@ != spec_register_cr_obj(cr) by {
                            if v@ == spec_register_cr_obj(cr) {
                                lemma_register_cr_eval(cr);
                            }
                        }
                    }
                    return Err(e);
                },
            };
            Some(
                RegisterResponse {
                    public_key,
                    key_handle,
                    attestation_certificate,
                    signature,
                    attestation_data,
                },
            )
        },
    };
    let out = ClientResult::new(contents, error);
    proof {
        assert forall|cr: ClientResultV<RegRespV>| v@ == spec_register_cr_obj(cr) implies (out@
            == cr) by {
            lemma_register_cr_eval(cr);
        }
    }
    Ok(out)
}

/// Parses the result-wrapped authentication reply; the signature counter
/// must be an integer that fits 32 unsigned bits.
fn parse_auth_cr(v: &Json) -> (r: Result<ClientResult<AuthenticateResponse>, Error>)
    ensures
        r is Err ==> (r matches Err(e) && e is FormatError),
        forall|cr: ClientResultV<AuthRespV>|
            v@ == spec_auth_cr_obj(cr) ==> (r matches Ok(out) && out@ == cr),
{
    let ps = match v {
        Json::Obj(ps) => ps,
        _ => {
            proof {
                crate::json::lemma_jval_shape(*v);
            }
            return Err(Error::FormatError);
        },
    };
    let k_error: String = "error".to_owned();
    let error = match take_opt_str(ps, &k_error) {
        Ok(e) => e,
        Err(e) => {
            proof {
                assert forall|cr: ClientResultV<AuthRespV>| v@ != spec_auth_cr_obj(cr) by {
                    if v@ == spec_auth_cr_obj(cr) {
                        lemma_auth_cr_eval(cr);
                    }
                }
            }
            return Err(e);
        },
    };
    let k_pk: String = "public_key".to_owned();
    let k_counter: String = "counter".to_owned();
    let k_sig: String = "signature".to_owned();
    let k_kh: String = "key_handle".to_owned();
    let k_uh: String = "user_handle".to_owned();
    let k_ad: String = "authenticator_data".to_owned();
    let contents = match lookup(ps, &k_pk) {
        None => None,
        Some(_) => {
            let public_key = match take_blob(ps, &k_pk) {
                Ok(b) => b,
                Err(e) => {
                    proof {
                        assert forall|cr: ClientResultV<AuthRespV>| v@ != spec_auth_cr_obj(
                            cr,
                        ) by {
                            if v@ == spec_auth_cr_obj(cr) {
                                lemma_auth_cr_eval(cr);
                            }
                        }
                    }
                    return Err(e);
                },
            };
            let counter = match lookup(ps, &k_counter) {
                Some(Json::Int(x)) => {
                    if *x >= 0 && *x <= (u32::MAX as i64) {
                        (*x) as u32
                    } else {
                        proof {
                            assert forall|cr: ClientResultV<AuthRespV>| v@ != spec_auth_cr_obj(
                                cr,
                            ) by {
                                if v@ == spec_auth_cr_obj(cr) {
                                    lemma_auth_cr_eval(cr);
                                }
                            }
                        }
                        return Err(Error::FormatError);
                    }
                },
                Some(other) => {
                    proof {
                        crate::json::lemma_jval_shape(*other);
                        assert forall|cr: ClientResultV<AuthRespV>| v@ != spec_auth_cr_obj(
                            cr,
                        ) by {
                            if v@ == spec_auth_cr_obj(cr) {
                                lemma_auth_cr_eval(cr);
                            }
                        }
                    }
                    return Err(Error::FormatError);
                },
                None => {
                    proof {
                        assert forall|cr: ClientResultV<AuthRespV>| v@ != spec_auth_cr_obj(
                            cr,
                        ) by {
                            if v@ == spec_auth_cr_obj(cr) {
                                lemma_auth_cr_eval(cr);
                            }
                        }
                    }
                    return Err(Error::FormatError);
                },
            };
            let signature = match take_blob(ps, &k_sig) {
                Ok(b) => b,
                Err(e) => {
                    proof {
                        assert forall|cr: ClientResultV<AuthRespV>| v@ != spec_auth_cr_obj(
                            cr,
                        ) by {
                            if v@ == spec_auth_cr_obj(cr) {
                                lemma_auth_cr_eval(cr);
                            }
                        }
                    }
                    return Err(e);
                },
            };
            let key_handle = match take_blob(ps, &k_kh) {
                Ok(b) => b,
                Err(e) => {
                    proof {
                        assert forall|cr: ClientResultV<AuthRespV>| v@ != spec_auth_cr_obj(
                            cr,
                        ) by {
                            if v@ == spec_auth_cr_obj(cr) {
                                lemma_auth_cr_eval(cr);
                            }
                        }
                    }
                    return Err(e);
                },
            };
            let user_handle = match lookup(ps, &k_uh) {
                None => None,
                Some(Json::Null) => None,
                Some(Json::Str(s)) => match Base64Buffer::from_b64(s.as_str()) {
                    Ok(b) => Some(b),
                    Err(_) => {
                        proof {
                            assert forall|cr: ClientResultV<AuthRespV>| v@ != spec_auth_cr_obj(
                                cr,
                            ) by {
                                if v@ == spec_auth_cr_obj(cr) {
                                    lemma_auth_cr_eval(cr);
                                }
                            }
                        }
                        return Err(Error::FormatError);
                    },
                },
                Some(other) => {
                    proof {
                        crate::json::lemma_jval_shape(*other);
                        assert forall|cr: ClientResultV<AuthRespV>| v@ != spec_auth_cr_obj(
                            cr,
                        ) by {
                            if v@ == spec_auth_cr_obj(cr) {
                                lemma_auth_cr_eval(cr);
                            }
                        }
                    }
                    return Err(Error::FormatError);
                },
            };
            let authenticator_data = match take_blob(ps, &k_ad) {
                Ok(b) => b,
                Err(e) => {
                    proof {
                        assert forall|cr: ClientResultV<AuthRespV>| v@ != spec_auth_cr_obj(
                            cr,
                        ) by {
                            if v@ == spec_auth_cr_obj(cr) {
                                lemma_auth_cr_eval(cr);
                            }
                        }
                    }
                    return Err(e);
                },
            };
            Some(
                AuthenticateResponse {
                    public_key,
                    counter,
                    signature,
                    key_handle,
                    user_handle,
                    authenticator_data,
                },
            )
        },
    };
    let out = ClientResult::new(contents, error);
    proof {
        assert forall|cr: ClientResultV<AuthRespV>| v@ == spec_auth_cr_obj(cr) implies (out@
            == cr) by {
            lemma_auth_cr_eval(cr);
        }
    }
    Ok(out)
}

/// Deserializes a response envelope from its flat JSON object, with the same
/// discriminator-cardinality rule as requests: exactly one recognized
/// response discriminator key must be present, and zero or several are a
/// format error. Unknown members are tolerated. For every value this crate
/// serializes, deserializing returns an envelope with the same mathematical
/// value.
pub fn response_from_json(j: &Json) -> (r: Result<Response, Error>)
    ensures
        r is Ok ==> (j@ matches JVal::Obj(ms) && response_disc_count(ms) == 1),
        (j@ matches JVal::Obj(ms) && response_disc_count(ms) != 1) ==> (r matches Err(e) && e
            is FormatError),
        !(j@ is Obj) ==> (r matches Err(e) && e is FormatError),
        forall|rv: RespV| j@ == spec_response_jval(rv) ==> (r matches Ok(resp) && resp@ == rv),
{
    let ps = match j {
        Json::Obj(ps) => ps,
        _ => {
            proof {
                crate::json::lemma_jval_shape(*j);
            }
            return Err(Error::FormatError);
        },
    };
    let ghost ms = jpairs_of(ps@);
    let n = count_response_disc(ps);
    if n != 1 {
        proof {
            assert forall|rv: RespV| j@ != spec_response_jval(rv) by {
                if j@ == spec_response_jval(rv) {
                    lemma_response_envelope_eval(rv);
                }
            }
        }
        return Err(Error::FormatError);
    }
    let k_rid: String = "request_id".to_owned();
    let k_arn: String = "sns_endpoint_arn".to_owned();
    let k_dt: String = "device_token".to_owned();
    let k_v: String = "v".to_owned();
    let request_id = match take_str(ps, &k_rid) {
        Ok(s) => s,
        Err(e) => {
            proof {
                assert forall|rv: RespV| j@ != spec_response_jval(rv) by {
                    if j@ == spec_response_jval(rv) {
                        lemma_response_envelope_eval(rv);
                    }
                }
            }
            return Err(e);
        },
    };
    let aws_push_id = match take_opt_str(ps, &k_arn) {
        Ok(s) => s,
        Err(e) => {
            proof {
                assert forall|rv: RespV| j@ != spec_response_jval(rv) by {
                    if j@ == spec_response_jval(rv) {
                        lemma_response_envelope_eval(rv);
                    }
                }
            }
            return Err(e);
        },
    };
    let device_token = match take_opt_str(ps, &k_dt) {
        Ok(s) => s,
        Err(e) => {
            proof {
                assert forall|rv: RespV| j@ != spec_response_jval(rv) by {
                    if j@ == spec_response_jval(rv) {
                        lemma_response_envelope_eval(rv);
                    }
                }
            }
            return Err(e);
        },
    };
    let version = match take_str(ps, &k_v) {
        Ok(s) => s,
        Err(e) => {
            proof {
                assert forall|rv: RespV| j@ != spec_response_jval(rv) by {
                    if j@ == spec_response_jval(rv) {
                        lemma_response_envelope_eval(rv);
                    }
                }
            }
            return Err(e);
        },
    };
    let k_me: String = "me_response".to_owned();
    let k_reg: String = "u2f_register_response".to_owned();
    let k_auth: String = "u2f_authenticate_response".to_owned();
    let body: ResponseBody = match lookup(ps, &k_me) {
        Some(mv) => match parse_id_cr(mv) {
            Ok(cr) => ResponseBody::Id(cr),
            Err(e) => {
                proof {
                    assert forall|rv: RespV| j@ != spec_response_jval(rv) by {
                        if j@ == spec_response_jval(rv) {
                            lemma_response_envelope_eval(rv);
                        }
                    }
                }
                return Err(e);
            },
        },
        None => match lookup(ps, &k_reg) {
            Some(rj) => match parse_register_cr(rj) {
                Ok(cr) => ResponseBody::Register(cr),
                Err(e) => {
                    proof {
                        assert forall|rv: RespV| j@ != spec_response_jval(rv) by {
                            if j@ == spec_response_jval(rv) {
                                lemma_response_envelope_eval(rv);
                            }
                        }
                    }
                    return Err(e);
                },
            },
            None => match lookup(ps, &k_auth) {
                Some(aj) => match parse_auth_cr(aj) {
                    Ok(cr) => ResponseBody::Authenticate(cr),
                    Err(e) => {
                        proof {
                            assert forall|rv: RespV| j@ != spec_response_jval(rv) by {
                                if j@ == spec_response_jval(rv) {
                                    lemma_response_envelope_eval(rv);
                                }
                            }
                        }
                        return Err(e);
                    },
                },
                None => {
                    proof {
                        lemma_resp_disc_some(ms);
                    }
                    return Err(Error::FormatError);
                },
            },
        },
    };
    let resp = Response { request_id, aws_push_id, device_token, version, body };
    proof {
        assert forall|rv: RespV| j@ == spec_response_jval(rv) implies (resp@ == rv) by {
            lemma_response_envelope_eval(rv);
        }
    }
    Ok(resp)
}

/// Serializes a request envelope to its transport text: the document text of
/// its flat JSON object.
pub fn serialize_request(req: Request) -> (r: String)
    ensures
        r@ == crate::text::json_text(spec_request_jval(req@)),
{
    let j = request_to_json(req);
    crate::text::json_to_string(&j)
}

/// Serializes a response envelope to its transport text.
pub fn serialize_response(resp: Response) -> (r: String)
    ensures
        r@ == crate::text::json_text(spec_response_jval(resp@)),
{
    let j = response_to_json(resp);
    crate::text::json_to_string(&j)
}

/// Serializing then deserializing a request envelope is the identity on its
/// mathematical value: the serialized object always carries exactly one
/// discriminator member, so by the contracts of `request_to_json` and
/// `request_from_json`, deserializing what was serialized succeeds and
/// returns an envelope with the same value.
pub proof fn lemma_request_round_trip(rv: ReqV)
    ensures
        spec_request_jval(rv) matches JVal::Obj(ms) && request_disc_count(ms) == 1,
{
    lemma_request_envelope_eval(rv);
}

/// Serializing then deserializing a response envelope is the identity on its
/// mathematical value, as for requests.
pub proof fn lemma_response_round_trip(rv: RespV)
    ensures
        spec_response_jval(rv) matches JVal::Obj(ms) && response_disc_count(ms) == 1,
{
    lemma_response_envelope_eval(rv);
}

/// Framing then unframing is the identity, for both variants and every
/// payload: the bytes `into_wire` produces (per its contract, the tag byte
/// followed by the payload) are non-empty, start with that variant's tag,
/// and carry the payload unchanged behind it, which per the contract of
/// `WireMessage::new` unframes to the same variant and payload.
pub proof fn lemma_wire_round_trip(p: Seq<u8>)
    ensures
        (seq![0x00u8] + p).len() > 0,
        (seq![0x00u8] + p)[0] == 0x00u8,
        (seq![0x00u8] + p).skip(1) == p,
        (seq![0x02u8] + p).len() > 0,
        (seq![0x02u8] + p)[0] == 0x02u8,
        (seq![0x02u8] + p).skip(1) == p,
{
    assert((seq![0x00u8] + p).skip(1) =~= p);
    assert((seq![0x02u8] + p).skip(1) =~= p);
}

} // verus!
