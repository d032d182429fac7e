//! The setup handshake that opens a session.

use crate::coding::{decoded, DecodeError};
use crate::parameters::{lemma_params_round_trip, params_bytes, params_wf, parse_params, Parameters};
use crate::varint::{
    decode_varint, encode_varint, lemma_varint_round_trip, parse_varint, varint_bytes,
    VARINT_LIMIT,
};
use vstd::prelude::*;

verus! {

/// `n` variable-length integers from the front of `s`.
pub open spec fn parse_varints(s: Seq<u8>, n: nat) -> Result<(Seq<u64>, int), DecodeError>
    decreases n,
{
    if n == 0 {
        Ok((Seq::empty(), 0))
    } else {
        match parse_varint(s) {
            Err(e) => Err(e),
            Ok((v, a)) => match parse_varints(s.skip(a), (n - 1) as nat) {
                Err(e) => Err(e),
                Ok((vs, b)) => Ok((seq![v] + vs, a + b)),
            },
        }
    }
}

/// A list of versions: its length, then each version.
pub open spec fn versions_bytes(vs: Seq<u64>) -> Seq<u8> {
    varint_bytes(vs.len() as u64) + vs.map_values(|v: u64| varint_bytes(v)).flatten()
}

#[verifier::opaque]
pub open spec fn parse_versions(s: Seq<u8>) -> Result<(Seq<u64>, int), DecodeError> {
    match parse_varint(s) {
        Err(e) => Err(e),
        Ok((n, a)) => match parse_varints(s.skip(a), n as nat) {
            Err(e) => Err(e),
            Ok((vs, b)) => Ok((vs, a + b)),
        },
    }
}

pub open spec fn versions_wf(vs: Seq<u64>) -> bool {
    vs.len() < VARINT_LIMIT && forall|i: int| 0 <= i < vs.len() ==> #[trigger] vs[i] < VARINT_LIMIT
}

pub proof fn lemma_varints_round_trip(vs: Seq<u64>, rest: Seq<u8>)
    requires
        forall|i: int| 0 <= i < vs.len() ==> #[trigger] vs[i] < VARINT_LIMIT,
    ensures
        parse_varints(vs.map_values(|v: u64| varint_bytes(v)).flatten() + rest, vs.len())
            == Ok::<(Seq<u64>, int), DecodeError>(
            (vs, vs.map_values(|v: u64| varint_bytes(v)).flatten().len() as int),
        ),
    decreases vs.len(),
{
    if vs.len() == 0 {
        assert(vs =~= Seq::<u64>::empty());
        assert(vs.map_values(|v: u64| varint_bytes(v)).flatten() =~= Seq::<u8>::empty());
        assert(vs.map_values(|v: u64| varint_bytes(v)).flatten() + rest =~= rest);
    } else {
        let t = vs.drop_first();
        assert forall|i: int| 0 <= i < t.len() implies #[trigger] t[i] < VARINT_LIMIT by {
            assert(t[i] == vs[i + 1]);
        }
        lemma_varints_round_trip(t, rest);
        let m = vs.map_values(|v: u64| varint_bytes(v));
        assert(m.drop_first() =~= t.map_values(|v: u64| varint_bytes(v)));
        assert(m.first() == varint_bytes(vs[0]));
        let tail = t.map_values(|v: u64| varint_bytes(v)).flatten();
        assert(m.flatten() == varint_bytes(vs[0]) + tail);
        lemma_varint_round_trip(vs[0], tail + rest);
        let s = m.flatten() + rest;
        assert(s =~= varint_bytes(vs[0]) + (tail + rest));
        assert(s.skip(varint_bytes(vs[0]).len() as int) =~= tail + rest);
        assert(seq![vs[0]] + t =~= vs);
    }
}

pub proof fn lemma_versions_round_trip(vs: Seq<u64>, rest: Seq<u8>)
    requires
        versions_wf(vs),
    ensures
        parse_versions(versions_bytes(vs) + rest) == Ok::<(Seq<u64>, int), DecodeError>(
            (vs, versions_bytes(vs).len() as int),
        ),
{
    reveal(parse_versions);
    let body = vs.map_values(|v: u64| varint_bytes(v)).flatten();
    lemma_varints_round_trip(vs, rest);
    lemma_varint_round_trip(vs.len() as u64, body + rest);
    assert(versions_bytes(vs) + rest =~= varint_bytes(vs.len() as u64) + (body + rest));
    assert((versions_bytes(vs) + rest).skip(varint_bytes(vs.len() as u64).len() as int) =~= body
        + rest);
}

fn encode_versions(vs: &Vec<u64>, w: &mut Vec<u8>)
    requires
        versions_wf(vs@),
    ensures
        final(w)@ == old(w)@ + versions_bytes(vs@),
{
    encode_varint(vs.len() as u64, w);
    let ghost start = w@;
    let mut i: usize = 0;
    while i < vs.len()
        invariant
            i <= vs@.len(),
            versions_wf(vs@),
            w@ == start + vs@.take(i as int).map_values(|v: u64| varint_bytes(v)).flatten(),
        decreases vs@.len() - i,
    {
        encode_varint(vs[i], w);
        proof {
            let t = vs@.take(i as int);
            assert(vs@.take(i + 1) =~= t.push(vs@[i as int]));
            assert(vs@.take(i + 1).map_values(|v: u64| varint_bytes(v)) =~= t.map_values(
                |v: u64| varint_bytes(v),
            ).push(varint_bytes(vs@[i as int])));
            t.map_values(|v: u64| varint_bytes(v)).lemma_flatten_push(varint_bytes(vs@[i as int]));
        }
        i = i + 1;
    }
    assert(vs@.take(i as int) =~= vs@);
    assert(final(w)@ =~= old(w)@ + versions_bytes(vs@));
}

fn decode_versions(buf: &[u8], pos: usize) -> (r: Result<(Vec<u64>, usize), DecodeError>)
    requires
        pos <= buf@.len(),
    ensures
        decoded(r, pos, parse_versions(buf@.skip(pos as int))),
        r matches Ok((_, p)) ==> pos <= p <= buf@.len(),
{
    proof {
        reveal(parse_versions);
    }
    let (n, p0) = match decode_varint(buf, pos) {
        Ok(x) => x,
        Err(e) => return Err(e),
    };
    let ghost s0 = buf@.skip(p0 as int);
    assert(s0 =~= buf@.skip(pos as int).skip(p0 - pos));
    let mut vs: Vec<u64> = Vec::new();
    let mut p = p0;
    let mut i: u64 = 0;
    while i < n
        invariant
            i <= n,
            p0 <= p <= buf@.len(),
            pos <= p0,
            vs@.len() == i,
            s0 == buf@.skip(p0 as int),
            parse_versions(buf@.skip(pos as int)) == match parse_varints(s0, n as nat) {
                Ok((xs, b)) => Ok::<(Seq<u64>, int), DecodeError>((xs, (p0 - pos) + b)),
                Err(e) => Err(e),
            },
            parse_varints(s0, n as nat) == match parse_varints(buf@.skip(p as int), (n - i) as nat) {
                Ok((xs, b)) => Ok::<(Seq<u64>, int), DecodeError>((vs@ + xs, (p - p0) + b)),
                Err(e) => Err(e),
            },
        decreases n - i,
    {
        let ghost s = buf@.skip(p as int);
        let (v, p1) = match decode_varint(buf, p) {
            Ok(x) => x,
            Err(e) => {
                assert(parse_varints(s, (n - i) as nat) == Err::<(Seq<u64>, int), DecodeError>(e));
                return Err(e);
            },
        };
        assert(buf@.skip(p1 as int) =~= s.skip(p1 - p));
        let ghost before = vs@;
        vs.push(v);
        assert forall|xs: Seq<u64>| before + (seq![v] + xs) =~= vs@ + xs by {}
        p = p1;
        i = i + 1;
    }
    assert(vs@ + Seq::<u64>::empty() =~= vs@);
    Ok((vs, p))
}

/// Sent by the client to open the session.
#[derive(Debug, Clone)]
pub struct ClientSetup {
    /// The versions the client speaks, in order of preference.
    pub versions: Vec<u64>,
    pub parameters: Parameters,
}

pub struct ClientSetupView {
    pub versions: Seq<u64>,
    pub parameters: Seq<(u64, Seq<u8>)>,
}

impl View for ClientSetup {
    type V = ClientSetupView;

    open spec fn view(&self) -> ClientSetupView {
        ClientSetupView { versions: self.versions@, parameters: self.parameters@ }
    }
}

pub open spec fn client_setup_wf(m: ClientSetupView) -> bool {
    versions_wf(m.versions) && params_wf(m.parameters)
}

pub open spec fn client_setup_bytes(m: ClientSetupView) -> Seq<u8> {
    versions_bytes(m.versions) + params_bytes(m.parameters)
}

#[verifier::opaque]
pub open spec fn parse_client_setup(s: Seq<u8>) -> Result<(ClientSetupView, int), DecodeError> {
    match parse_versions(s) {
        Err(e) => Err(e),
        Ok((versions, n1)) => match parse_params(s.skip(n1)) {
            Err(e) => Err(e),
            Ok((parameters, n2)) => Ok((ClientSetupView { versions, parameters }, n1 + n2)),
        },
    }
}

pub proof fn lemma_client_setup_round_trip(m: ClientSetupView, rest: Seq<u8>)
    requires
        client_setup_wf(m),
    ensures
        parse_client_setup(client_setup_bytes(m) + rest) == Ok::<(ClientSetupView, int), DecodeError>(
            (m, client_setup_bytes(m).len() as int),
        ),
{
    reveal(parse_client_setup);
    let b1 = versions_bytes(m.versions);
    let t2 = params_bytes(m.parameters) + rest;
    assert(client_setup_bytes(m) + rest =~= b1 + t2);
    lemma_versions_round_trip(m.versions, t2);
    assert((b1 + t2).skip(b1.len() as int) =~= t2);
    lemma_params_round_trip(m.parameters, rest);
}

impl ClientSetup {
    pub const ID: u64 = 0x20;

    pub fn encode(&self, w: &mut Vec<u8>)
        requires
            client_setup_wf(self@),
        ensures
            final(w)@ == old(w)@ + client_setup_bytes(self@),
    {
        encode_versions(&self.versions, w);
        self.parameters.encode(w);
        assert(final(w)@ =~= old(w)@ + client_setup_bytes(self@));
    }

    pub fn decode(buf: &[u8], pos: usize) -> (r: Result<(ClientSetup, usize), DecodeError>)
        requires
            pos <= buf@.len(),
        ensures
            decoded(r, pos, parse_client_setup(buf@.skip(pos as int))),
            r matches Ok((_, p)) ==> pos <= p <= buf@.len(),
    {
        proof {
            reveal(parse_client_setup);
        }
        let (versions, p1) = match decode_versions(buf, pos) {
            Ok(x) => x,
            Err(e) => return Err(e),
        };
        assert(buf@.skip(p1 as int) =~= buf@.skip(pos as int).skip(p1 - pos));
        let (parameters, p2) = match Parameters::decode(buf, p1) {
            Ok(x) => x,
            Err(e) => return Err(e),
        };
        Ok((ClientSetup { versions, parameters }, p2))
    }
}

/// The server's answer: the version it picked.
#[derive(Debug, Clone)]
pub struct ServerSetup {
    pub version: u64,
    pub parameters: Parameters,
}

pub struct ServerSetupView {
    pub version: u64,
    pub parameters: Seq<(u64, Seq<u8>)>,
}

impl View for ServerSetup {
    type V = ServerSetupView;

    open spec fn view(&self) -> ServerSetupView {
        ServerSetupView { version: self.version, parameters: self.parameters@ }
    }
}

pub open spec fn server_setup_wf(m: ServerSetupView) -> bool {
    m.version < VARINT_LIMIT && params_wf(m.parameters)
}

pub open spec fn server_setup_bytes(m: ServerSetupView) -> Seq<u8> {
    varint_bytes(m.version) + params_bytes(m.parameters)
}

#[verifier::opaque]
pub open spec fn parse_server_setup(s: Seq<u8>) -> Result<(ServerSetupView, int), DecodeError> {
    match parse_varint(s) {
        Err(e) => Err(e),
        Ok((version, n1)) => match parse_params(s.skip(n1)) {
            Err(e) => Err(e),
            Ok((parameters, n2)) => Ok((ServerSetupView { version, parameters }, n1 + n2)),
        },
    }
}

pub proof fn lemma_server_setup_round_trip(m: ServerSetupView, rest: Seq<u8>)
    requires
        server_setup_wf(m),
    ensures
        parse_server_setup(server_setup_bytes(m) + rest) == Ok::<(ServerSetupView, int), DecodeError>(
            (m, server_setup_bytes(m).len() as int),
        ),
{
    reveal(parse_server_setup);
    let b1 = varint_bytes(m.version);
    let t2 = params_bytes(m.parameters) + rest;
    assert(server_setup_bytes(m) + rest =~= b1 + t2);
    lemma_varint_round_trip(m.version, t2);
    assert((b1 + t2).skip(b1.len() as int) =~= t2);
    lemma_params_round_trip(m.parameters, rest);
}

impl ServerSetup {
    pub const ID: u64 = 0x21;

    pub fn encode(&self, w: &mut Vec<u8>)
        requires
            server_setup_wf(self@),
        ensures
            final(w)@ == old(w)@ + server_setup_bytes(self@),
    {
        encode_varint(self.version, w);
        self.parameters.encode(w);
        assert(final(w)@ =~= old(w)@ + server_setup_bytes(self@));
    }

    pub fn decode(buf: &[u8], pos: usize) -> (r: Result<(ServerSetup, usize), DecodeError>)
        requires
            pos <= buf@.len(),
        ensures
            decoded(r, pos, parse_server_setup(buf@.skip(pos as int))),
            r matches Ok((_, p)) ==> pos <= p <= buf@.len(),
    {
        proof {
            reveal(parse_server_setup);
        }
        let (version, p1) = match decode_varint(buf, pos) {
            Ok(x) => x,
            Err(e) => return Err(e),
        };
        assert(buf@.skip(p1 as int) =~= buf@.skip(pos as int).skip(p1 - pos));
        let (parameters, p2) = match Parameters::decode(buf, p1) {
            Ok(x) => x,
            Err(e) => return Err(e),
        };
        Ok((ServerSetup { version, parameters }, p2))
    }
}

} // verus!
