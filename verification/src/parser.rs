//! Mutation parser and validator: turns a plugin's single structured
//! output document into a typed, validated mutation. The document is a
//! JSON object with optional `host`, `service`, `tool_run` and `evidence`
//! members, each an object of string or integer fields. Anything else —
//! unknown shape, missing required fields, type mismatches, a malformed
//! evidence key — is rejected; malformed output never reaches the graph.
//!
//! The executable parser is proved equal to a specification-level parser
//! (`spec_parse`), so its behaviour is pinned on every input.

use vstd::prelude::*;

use crate::bytes::bytes_eq;
use crate::keys::{is_valid_key, valid_key};
use crate::mutation::{
    mutation_wf, mutation_model, EvDeclM, EvidenceDecl, HostUpM, HostUpsert, Mutation, MutM,
    RunDeclM, ServiceUpsert, SvcUpM, ToolRunDecl,
};

verus! {

/// Why a document was rejected.
#[derive(Clone, Copy, Debug, PartialEq, Eq, Structural)]
pub enum ParseError {
    /// The bytes do not form a document of the expected shape.
    Syntax,
    /// A member key that no schema knows.
    UnknownKey,
    /// The same key appears twice in one object.
    DuplicateKey,
    /// A required field is absent or empty.
    MissingField,
    /// A field holds a value of the wrong type or range.
    TypeMismatch,
    /// An evidence `cas_key` that is not a syntactically valid content key.
    BadCasKey,
    /// Bytes other than whitespace follow the document.
    TrailingData,
}

/// A parsed field value: a string or an unsigned integer.
pub enum JVal {
    Str(Vec<u8>),
    Num(u64),
}

/// One parsed field of an inner object.
pub struct Field {
    pub key: Vec<u8>,
    pub val: JVal,
}

/// Model of a field value.
pub enum JValM {
    Str(Seq<u8>),
    Num(u64),
}

/// Model of one field.
pub struct FieldM {
    pub key: Seq<u8>,
    pub val: JValM,
}

/// The model of a parsed field.
pub open spec fn field_model(f: Field) -> FieldM {
    FieldM {
        key: f.key@,
        val: match f.val {
            JVal::Str(v) => JValM::Str(v@),
            JVal::Num(n) => JValM::Num(n),
        },
    }
}

/// The model of a field list.
pub open spec fn fields_model(fs: Seq<Field>) -> Seq<FieldM> {
    fs.map_values(|f: Field| field_model(f))
}

/// The four top-level sections before conversion.
pub struct RawTopM {
    pub host: Option<Seq<FieldM>>,
    pub service: Option<Seq<FieldM>>,
    pub tool_run: Option<Seq<FieldM>>,
    pub evidence: Option<Seq<FieldM>>,
}

/// A service section before its host reference is resolved.
pub struct SvcPartM {
    pub host: Option<Seq<u8>>,
    pub protocol: Seq<u8>,
    pub port: u16,
    pub product: Option<Seq<u8>>,
    pub version: Option<Seq<u8>>,
    pub banner: Option<Seq<u8>>,
}

/// JSON whitespace.
pub open spec fn spec_is_ws(c: u8) -> bool {
    c == 0x20 || c == 0x09 || c == 0x0a || c == 0x0d
}

/// A byte allowed inside a string literal: printable ASCII except the
/// quote and the backslash (the accepted subset has no escapes).
pub open spec fn spec_is_str_byte(c: u8) -> bool {
    0x20 <= c && c <= 0x7e && c != 0x22 && c != 0x5c
}

/// A decimal digit.
pub open spec fn spec_is_digit(c: u8) -> bool {
    0x30 <= c && c <= 0x39
}

/// The first index at or after `i` holding a non-whitespace byte, or the
/// length.
pub open spec fn spec_skip_ws(s: Seq<u8>, i: int) -> int
    decreases s.len() - i,
{
    if 0 <= i < s.len() && spec_is_ws(s[i]) {
        spec_skip_ws(s, i + 1)
    } else {
        i
    }
}

/// The index of the closing quote of a string starting at `j`, if the
/// bytes up to it are all allowed string bytes.
pub open spec fn spec_str_end(s: Seq<u8>, j: int) -> Option<int>
    decreases s.len() - j,
{
    if j < 0 || j >= s.len() {
        None
    } else if s[j] == 0x22 {
        Some(j)
    } else if spec_is_str_byte(s[j]) {
        spec_str_end(s, j + 1)
    } else {
        None
    }
}

/// Parses a quoted string at `i`; yields the contents and the index after
/// the closing quote.
pub open spec fn spec_parse_string(s: Seq<u8>, i: int) -> Result<(Seq<u8>, int), ParseError> {
    if 0 <= i < s.len() && s[i] == 0x22 {
        match spec_str_end(s, i + 1) {
            Some(e) => Ok((s.subrange(i + 1, e), e + 1)),
            None => Err(ParseError::Syntax),
        }
    } else {
        Err(ParseError::Syntax)
    }
}

/// Accumulates decimal digits from `j`; rejects values beyond 64 bits.
pub open spec fn spec_num_rec(s: Seq<u8>, j: int, acc: u64) -> Result<(u64, int), ParseError>
    decreases s.len() - j,
{
    if 0 <= j < s.len() && spec_is_digit(s[j]) {
        let d = (s[j] - 0x30) as u64;
        if acc > (0xffffffffffffffffu64 - d) / 10 {
            Err(ParseError::TypeMismatch)
        } else {
            spec_num_rec(s, j + 1, (acc * 10 + d) as u64)
        }
    } else {
        Ok((acc, j))
    }
}

/// Parses an unsigned integer at `i`.
pub open spec fn spec_parse_number(s: Seq<u8>, i: int) -> Result<(u64, int), ParseError> {
    if 0 <= i < s.len() && spec_is_digit(s[i]) {
        spec_num_rec(s, i, 0)
    } else {
        Err(ParseError::Syntax)
    }
}

/// Parses a field value: a string or an integer.
pub open spec fn spec_parse_value(s: Seq<u8>, i: int) -> Result<(JValM, int), ParseError> {
    let j = spec_skip_ws(s, i);
    if 0 <= j < s.len() && s[j] == 0x22 {
        match spec_parse_string(s, j) {
            Ok((v, n)) => Ok((JValM::Str(v), n)),
            Err(e) => Err(e),
        }
    } else if 0 <= j < s.len() && spec_is_digit(s[j]) {
        match spec_parse_number(s, j) {
            Ok((v, n)) => Ok((JValM::Num(v), n)),
            Err(e) => Err(e),
        }
    } else {
        Err(ParseError::Syntax)
    }
}

/// Parses one `"key": value` field.
pub open spec fn spec_parse_field(s: Seq<u8>, i: int) -> Result<(FieldM, int), ParseError> {
    let j = spec_skip_ws(s, i);
    match spec_parse_string(s, j) {
        Err(e) => Err(e),
        Ok((k, n)) => {
            let j2 = spec_skip_ws(s, n);
            if 0 <= j2 < s.len() && s[j2] == 0x3a {
                match spec_parse_value(s, j2 + 1) {
                    Ok((v, n2)) => Ok((FieldM { key: k, val: v }, n2)),
                    Err(e) => Err(e),
                }
            } else {
                Err(ParseError::Syntax)
            }
        },
    }
}

/// Parses the rest of an object after its first field: `, field`* `}`.
pub open spec fn spec_fields_rec(s: Seq<u8>, i: int, acc: Seq<FieldM>, fuel: nat) -> Result<
    (Seq<FieldM>, int),
    ParseError,
>
    decreases fuel,
{
    if fuel == 0 {
        Err(ParseError::Syntax)
    } else {
        let j = spec_skip_ws(s, i);
        if !(0 <= j < s.len()) {
            Err(ParseError::Syntax)
        } else if s[j] == 0x7d {
            Ok((acc, j + 1))
        } else if s[j] == 0x2c {
            match spec_parse_field(s, j + 1) {
                Ok((f, n)) => spec_fields_rec(s, n, acc.push(f), (fuel - 1) as nat),
                Err(e) => Err(e),
            }
        } else {
            Err(ParseError::Syntax)
        }
    }
}

/// Parses a whole inner object `{ ... }` of string/integer fields.
pub open spec fn spec_parse_fields(s: Seq<u8>, i: int, fuel: nat) -> Result<
    (Seq<FieldM>, int),
    ParseError,
> {
    let j = spec_skip_ws(s, i);
    if 0 <= j < s.len() && s[j] == 0x7b {
        let j2 = spec_skip_ws(s, j + 1);
        if !(0 <= j2 < s.len()) {
            Err(ParseError::Syntax)
        } else if s[j2] == 0x7d {
            Ok((Seq::<FieldM>::empty(), j2 + 1))
        } else {
            match spec_parse_field(s, j2) {
                Ok((f, n)) => spec_fields_rec(s, n, seq![f], fuel),
                Err(e) => Err(e),
            }
        }
    } else {
        Err(ParseError::Syntax)
    }
}

/// Stores a parsed section under its top-level key; unknown keys and
/// duplicate sections are rejected.
pub open spec fn spec_store_section(acc: RawTopM, key: Seq<u8>, fs: Seq<FieldM>) -> Result<
    RawTopM,
    ParseError,
> {
    if key == key_host() {
        if acc.host is Some {
            Err(ParseError::DuplicateKey)
        } else {
            Ok(RawTopM { host: Some(fs), ..acc })
        }
    } else if key == key_service() {
        if acc.service is Some {
            Err(ParseError::DuplicateKey)
        } else {
            Ok(RawTopM { service: Some(fs), ..acc })
        }
    } else if key == key_tool_run() {
        if acc.tool_run is Some {
            Err(ParseError::DuplicateKey)
        } else {
            Ok(RawTopM { tool_run: Some(fs), ..acc })
        }
    } else if key == key_evidence() {
        if acc.evidence is Some {
            Err(ParseError::DuplicateKey)
        } else {
            Ok(RawTopM { evidence: Some(fs), ..acc })
        }
    } else {
        Err(ParseError::UnknownKey)
    }
}

/// Parses one top-level member `"key": { ... }`.
pub open spec fn spec_parse_top_member(s: Seq<u8>, i: int, acc: RawTopM, fuel: nat) -> Result<
    (RawTopM, int),
    ParseError,
> {
    let j = spec_skip_ws(s, i);
    match spec_parse_string(s, j) {
        Err(e) => Err(e),
        Ok((k, n)) => {
            let j2 = spec_skip_ws(s, n);
            if 0 <= j2 < s.len() && s[j2] == 0x3a {
                match spec_parse_fields(s, j2 + 1, fuel) {
                    Ok((fs, n2)) => match spec_store_section(acc, k, fs) {
                        Ok(acc2) => Ok((acc2, n2)),
                        Err(e) => Err(e),
                    },
                    Err(e) => Err(e),
                }
            } else {
                Err(ParseError::Syntax)
            }
        },
    }
}

/// Parses the rest of the document after its first member.
pub open spec fn spec_top_rec(s: Seq<u8>, i: int, acc: RawTopM, fuel: nat) -> Result<
    (RawTopM, int),
    ParseError,
>
    decreases fuel,
{
    if fuel == 0 {
        Err(ParseError::Syntax)
    } else {
        let j = spec_skip_ws(s, i);
        if !(0 <= j < s.len()) {
            Err(ParseError::Syntax)
        } else if s[j] == 0x7d {
            Ok((acc, j + 1))
        } else if s[j] == 0x2c {
            match spec_parse_top_member(s, j + 1, acc, (fuel - 1) as nat) {
                Ok((acc2, n)) => spec_top_rec(s, n, acc2, (fuel - 1) as nat),
                Err(e) => Err(e),
            }
        } else {
            Err(ParseError::Syntax)
        }
    }
}

/// The empty document accumulator.
pub open spec fn empty_raw_top() -> RawTopM {
    RawTopM { host: None, service: None, tool_run: None, evidence: None }
}

/// Parses the document's outermost object.
pub open spec fn spec_parse_doc(s: Seq<u8>) -> Result<(RawTopM, int), ParseError> {
    let fuel = (s.len() + 1) as nat;
    let j = spec_skip_ws(s, 0);
    if 0 <= j < s.len() && s[j] == 0x7b {
        let j2 = spec_skip_ws(s, j + 1);
        if !(0 <= j2 < s.len()) {
            Err(ParseError::Syntax)
        } else if s[j2] == 0x7d {
            Ok((empty_raw_top(), j2 + 1))
        } else {
            match spec_parse_top_member(s, j2, empty_raw_top(), fuel) {
                Ok((acc, n)) => spec_top_rec(s, n, acc, fuel),
                Err(e) => Err(e),
            }
        }
    } else {
        Err(ParseError::Syntax)
    }
}

/// The key bytes of `host`.
pub open spec fn key_host() -> Seq<u8> {
    seq![0x68, 0x6f, 0x73, 0x74]
}

/// The key bytes of `service`.
pub open spec fn key_service() -> Seq<u8> {
    seq![0x73, 0x65, 0x72, 0x76, 0x69, 0x63, 0x65]
}

/// The key bytes of `tool_run`.
pub open spec fn key_tool_run() -> Seq<u8> {
    seq![0x74, 0x6f, 0x6f, 0x6c, 0x5f, 0x72, 0x75, 0x6e]
}

/// The key bytes of `evidence`.
pub open spec fn key_evidence() -> Seq<u8> {
    seq![0x65, 0x76, 0x69, 0x64, 0x65, 0x6e, 0x63, 0x65]
}

/// The key bytes of `ip`.
pub open spec fn key_ip() -> Seq<u8> {
    seq![0x69, 0x70]
}

/// The key bytes of `hostname`.
pub open spec fn key_hostname() -> Seq<u8> {
    seq![0x68, 0x6f, 0x73, 0x74, 0x6e, 0x61, 0x6d, 0x65]
}

/// The key bytes of `protocol`.
pub open spec fn key_protocol() -> Seq<u8> {
    seq![0x70, 0x72, 0x6f, 0x74, 0x6f, 0x63, 0x6f, 0x6c]
}

/// The key bytes of `port`.
pub open spec fn key_port() -> Seq<u8> {
    seq![0x70, 0x6f, 0x72, 0x74]
}

/// The key bytes of `product`.
pub open spec fn key_product() -> Seq<u8> {
    seq![0x70, 0x72, 0x6f, 0x64, 0x75, 0x63, 0x74]
}

/// The key bytes of `version`.
pub open spec fn key_version() -> Seq<u8> {
    seq![0x76, 0x65, 0x72, 0x73, 0x69, 0x6f, 0x6e]
}

/// The key bytes of `banner`.
pub open spec fn key_banner() -> Seq<u8> {
    seq![0x62, 0x61, 0x6e, 0x6e, 0x65, 0x72]
}

/// The key bytes of `name`.
pub open spec fn key_name() -> Seq<u8> {
    seq![0x6e, 0x61, 0x6d, 0x65]
}

/// The key bytes of `cache_key`.
pub open spec fn key_cache_key() -> Seq<u8> {
    seq![0x63, 0x61, 0x63, 0x68, 0x65, 0x5f, 0x6b, 0x65, 0x79]
}

/// The key bytes of `summary`.
pub open spec fn key_summary() -> Seq<u8> {
    seq![0x73, 0x75, 0x6d, 0x6d, 0x61, 0x72, 0x79]
}

/// The key bytes of `cas_key`.
pub open spec fn key_cas_key() -> Seq<u8> {
    seq![0x63, 0x61, 0x73, 0x5f, 0x6b, 0x65, 0x79]
}


/// Converts a host section: `ip` required and nonempty, `hostname`
/// optional; both strings.
pub open spec fn spec_conv_host(
    fs: Seq<FieldM>,
    i: int,
    ip: Option<Seq<u8>>,
    hostname: Option<Seq<u8>>,
) -> Result<HostUpM, ParseError>
    decreases fs.len() - i,
{
    if i < 0 || i >= fs.len() {
        match ip {
            Some(v) => if v.len() == 0 {
                Err(ParseError::MissingField)
            } else {
                Ok(HostUpM { ip: v, hostname })
            },
            None => Err(ParseError::MissingField),
        }
    } else {
        let f = fs[i];
        if f.key == key_ip() {
            if ip is Some {
                Err(ParseError::DuplicateKey)
            } else {
                match f.val {
                    JValM::Str(v) => spec_conv_host(fs, i + 1, Some(v), hostname),
                    JValM::Num(_) => Err(ParseError::TypeMismatch),
                }
            }
        } else if f.key == key_hostname() {
            if hostname is Some {
                Err(ParseError::DuplicateKey)
            } else {
                match f.val {
                    JValM::Str(v) => spec_conv_host(fs, i + 1, ip, Some(v)),
                    JValM::Num(_) => Err(ParseError::TypeMismatch),
                }
            }
        } else {
            Err(ParseError::UnknownKey)
        }
    }
}

/// Converts a service section: `protocol` (nonempty string) and `port`
/// (integer up to 65535) required; `host`, `product`, `version`, `banner`
/// optional strings.
pub open spec fn spec_conv_service(
    fs: Seq<FieldM>,
    i: int,
    host: Option<Seq<u8>>,
    protocol: Option<Seq<u8>>,
    port: Option<u16>,
    product: Option<Seq<u8>>,
    version: Option<Seq<u8>>,
    banner: Option<Seq<u8>>,
) -> Result<SvcPartM, ParseError>
    decreases fs.len() - i,
{
    if i < 0 || i >= fs.len() {
        match (protocol, port) {
            (Some(pr), Some(po)) => if pr.len() == 0 {
                Err(ParseError::MissingField)
            } else {
                Ok(SvcPartM { host, protocol: pr, port: po, product, version, banner })
            },
            _ => Err(ParseError::MissingField),
        }
    } else {
        let f = fs[i];
        if f.key == key_host() {
            if host is Some {
                Err(ParseError::DuplicateKey)
            } else {
                match f.val {
                    JValM::Str(v) => spec_conv_service(
                        fs, i + 1, Some(v), protocol, port, product, version, banner),
                    JValM::Num(_) => Err(ParseError::TypeMismatch),
                }
            }
        } else if f.key == key_protocol() {
            if protocol is Some {
                Err(ParseError::DuplicateKey)
            } else {
                match f.val {
                    JValM::Str(v) => spec_conv_service(
                        fs, i + 1, host, Some(v), port, product, version, banner),
                    JValM::Num(_) => Err(ParseError::TypeMismatch),
                }
            }
        } else if f.key == key_port() {
            if port is Some {
                Err(ParseError::DuplicateKey)
            } else {
                match f.val {
                    JValM::Num(n) => if n > 65535 {
                        Err(ParseError::TypeMismatch)
                    } else {
                        spec_conv_service(
                            fs, i + 1, host, protocol, Some(n as u16), product, version, banner)
                    },
                    JValM::Str(_) => Err(ParseError::TypeMismatch),
                }
            }
        } else if f.key == key_product() {
            if product is Some {
                Err(ParseError::DuplicateKey)
            } else {
                match f.val {
                    JValM::Str(v) => spec_conv_service(
                        fs, i + 1, host, protocol, port, Some(v), version, banner),
                    JValM::Num(_) => Err(ParseError::TypeMismatch),
                }
            }
        } else if f.key == key_version() {
            if version is Some {
                Err(ParseError::DuplicateKey)
            } else {
                match f.val {
                    JValM::Str(v) => spec_conv_service(
                        fs, i + 1, host, protocol, port, product, Some(v), banner),
                    JValM::Num(_) => Err(ParseError::TypeMismatch),
                }
            }
        } else if f.key == key_banner() {
            if banner is Some {
                Err(ParseError::DuplicateKey)
            } else {
                match f.val {
                    JValM::Str(v) => spec_conv_service(
                        fs, i + 1, host, protocol, port, product, version, Some(v)),
                    JValM::Num(_) => Err(ParseError::TypeMismatch),
                }
            }
        } else {
            Err(ParseError::UnknownKey)
        }
    }
}

/// Converts a tool run section: `name`, `version` and `cache_key` all
/// required, nonempty strings.
pub open spec fn spec_conv_run(
    fs: Seq<FieldM>,
    i: int,
    name: Option<Seq<u8>>,
    version: Option<Seq<u8>>,
    cache_key: Option<Seq<u8>>,
) -> Result<RunDeclM, ParseError>
    decreases fs.len() - i,
{
    if i < 0 || i >= fs.len() {
        match (name, version, cache_key) {
            (Some(n), Some(v), Some(c)) => if n.len() == 0 || v.len() == 0 || c.len() == 0 {
                Err(ParseError::MissingField)
            } else {
                Ok(RunDeclM { name: n, version: v, cache_key: c })
            },
            _ => Err(ParseError::MissingField),
        }
    } else {
        let f = fs[i];
        if f.key == key_name() {
            if name is Some {
                Err(ParseError::DuplicateKey)
            } else {
                match f.val {
                    JValM::Str(v) => spec_conv_run(fs, i + 1, Some(v), version, cache_key),
                    JValM::Num(_) => Err(ParseError::TypeMismatch),
                }
            }
        } else if f.key == key_version() {
            if version is Some {
                Err(ParseError::DuplicateKey)
            } else {
                match f.val {
                    JValM::Str(v) => spec_conv_run(fs, i + 1, name, Some(v), cache_key),
                    JValM::Num(_) => Err(ParseError::TypeMismatch),
                }
            }
        } else if f.key == key_cache_key() {
            if cache_key is Some {
                Err(ParseError::DuplicateKey)
            } else {
                match f.val {
                    JValM::Str(v) => spec_conv_run(fs, i + 1, name, version, Some(v)),
                    JValM::Num(_) => Err(ParseError::TypeMismatch),
                }
            }
        } else {
            Err(ParseError::UnknownKey)
        }
    }
}

/// Converts an evidence section: `cas_key` (a syntactically valid content
/// key) and `summary` required strings.
pub open spec fn spec_conv_evidence(
    fs: Seq<FieldM>,
    i: int,
    cas_key: Option<Seq<u8>>,
    summary: Option<Seq<u8>>,
) -> Result<EvDeclM, ParseError>
    decreases fs.len() - i,
{
    if i < 0 || i >= fs.len() {
        match (cas_key, summary) {
            (Some(c), Some(su)) => if !valid_key(c) {
                Err(ParseError::BadCasKey)
            } else {
                Ok(EvDeclM { cas_key: c, summary: su })
            },
            _ => Err(ParseError::MissingField),
        }
    } else {
        let f = fs[i];
        if f.key == key_cas_key() {
            if cas_key is Some {
                Err(ParseError::DuplicateKey)
            } else {
                match f.val {
                    JValM::Str(v) => spec_conv_evidence(fs, i + 1, Some(v), summary),
                    JValM::Num(_) => Err(ParseError::TypeMismatch),
                }
            }
        } else if f.key == key_summary() {
            if summary is Some {
                Err(ParseError::DuplicateKey)
            } else {
                match f.val {
                    JValM::Str(v) => spec_conv_evidence(fs, i + 1, cas_key, Some(v)),
                    JValM::Num(_) => Err(ParseError::TypeMismatch),
                }
            }
        } else {
            Err(ParseError::UnknownKey)
        }
    }
}

/// Assembles the validated mutation from the parsed sections: converts
/// each section in a fixed order, then resolves the service's host
/// reference — its own `host` field, or the document's host record.
pub open spec fn spec_assemble(raw: RawTopM) -> Result<MutM, ParseError> {
    let host = match raw.host {
        Some(fs) => match spec_conv_host(fs, 0, None, None) {
            Ok(h) => Ok(Some(h)),
            Err(e) => Err(e),
        },
        None => Ok(None),
    };
    match host {
        Err(e) => Err(e),
        Ok(hostv) => {
            let svc = match raw.service {
                Some(fs) => match spec_conv_service(fs, 0, None, None, None, None, None, None) {
                    Ok(sp) => Ok(Some(sp)),
                    Err(e) => Err(e),
                },
                None => Ok(None),
            };
            match svc {
                Err(e) => Err(e),
                Ok(svcv) => {
                    let run = match raw.tool_run {
                        Some(fs) => match spec_conv_run(fs, 0, None, None, None) {
                            Ok(t) => Ok(Some(t)),
                            Err(e) => Err(e),
                        },
                        None => Ok(None),
                    };
                    match run {
                        Err(e) => Err(e),
                        Ok(runv) => {
                            let ev = match raw.evidence {
                                Some(fs) => match spec_conv_evidence(fs, 0, None, None) {
                                    Ok(e2) => Ok(Some(e2)),
                                    Err(e) => Err(e),
                                },
                                None => Ok(None),
                            };
                            match ev {
                                Err(e) => Err(e),
                                Ok(evv) => match svcv {
                                    None => Ok(
                                        MutM {
                                            host: hostv,
                                            service: None,
                                            tool_run: runv,
                                            evidence: evv,
                                        },
                                    ),
                                    Some(sp) => {
                                        let hip = match sp.host {
                                            Some(h) => if h.len() == 0 {
                                                Err(ParseError::MissingField)
                                            } else {
                                                Ok(h)
                                            },
                                            None => match hostv {
                                                Some(hu) => Ok(hu.ip),
                                                None => Err(ParseError::MissingField),
                                            },
                                        };
                                        match hip {
                                            Err(e) => Err(e),
                                            Ok(h) => Ok(
                                                MutM {
                                                    host: hostv,
                                                    service: Some(
                                                        SvcUpM {
                                                            host_ip: h,
                                                            protocol: sp.protocol,
                                                            port: sp.port,
                                                            product: sp.product,
                                                            version: sp.version,
                                                            banner: sp.banner,
                                                        },
                                                    ),
                                                    tool_run: runv,
                                                    evidence: evv,
                                                },
                                            ),
                                        }
                                    },
                                },
                            }
                        },
                    }
                },
            }
        },
    }
}

/// The whole parser: the document, nothing but trailing whitespace after
/// it, and every section converted and validated.
pub open spec fn spec_parse(s: Seq<u8>) -> Result<MutM, ParseError> {
    match spec_parse_doc(s) {
        Err(e) => Err(e),
        Ok((raw, end)) => {
            let t = spec_skip_ws(s, end);
            if t != s.len() {
                Err(ParseError::TrailingData)
            } else {
                spec_assemble(raw)
            }
        },
    }
}

fn eq_host(k: &Vec<u8>) -> (r: bool)
    ensures
        r == (k@ == key_host()),
{
    let r = k.len() == 4 && k[0] == 0x68 && k[1] == 0x6f && k[2] == 0x73 && k[3] == 0x74;
    proof {
        if r {
            assert(k@ =~= key_host());
        } else {
            assert(k@ != key_host());
        }
    }
    r
}

fn eq_service(k: &Vec<u8>) -> (r: bool)
    ensures
        r == (k@ == key_service()),
{
    let r = k.len() == 7 && k[0] == 0x73 && k[1] == 0x65 && k[2] == 0x72 && k[3] == 0x76 && k[4] == 0x69 && k[5] == 0x63 && k[6] == 0x65;
    proof {
        if r {
            assert(k@ =~= key_service());
        } else {
            assert(k@ != key_service());
        }
    }
    r
}

fn eq_tool_run(k: &Vec<u8>) -> (r: bool)
    ensures
        r == (k@ == key_tool_run()),
{
    let r = k.len() == 8 && k[0] == 0x74 && k[1] == 0x6f && k[2] == 0x6f && k[3] == 0x6c && k[4] == 0x5f && k[5] == 0x72 && k[6] == 0x75 && k[7] == 0x6e;
    proof {
        if r {
            assert(k@ =~= key_tool_run());
        } else {
            assert(k@ != key_tool_run());
        }
    }
    r
}

fn eq_evidence(k: &Vec<u8>) -> (r: bool)
    ensures
        r == (k@ == key_evidence()),
{
    let r = k.len() == 8 && k[0] == 0x65 && k[1] == 0x76 && k[2] == 0x69 && k[3] == 0x64 && k[4] == 0x65 && k[5] == 0x6e && k[6] == 0x63 && k[7] == 0x65;
    proof {
        if r {
            assert(k@ =~= key_evidence());
        } else {
            assert(k@ != key_evidence());
        }
    }
    r
}

fn eq_ip(k: &Vec<u8>) -> (r: bool)
    ensures
        r == (k@ == key_ip()),
{
    let r = k.len() == 2 && k[0] == 0x69 && k[1] == 0x70;
    proof {
        if r {
            assert(k@ =~= key_ip());
        } else {
            assert(k@ != key_ip());
        }
    }
    r
}

fn eq_hostname(k: &Vec<u8>) -> (r: bool)
    ensures
        r == (k@ == key_hostname()),
{
    let r = k.len() == 8 && k[0] == 0x68 && k[1] == 0x6f && k[2] == 0x73 && k[3] == 0x74 && k[4] == 0x6e && k[5] == 0x61 && k[6] == 0x6d && k[7] == 0x65;
    proof {
        if r {
            assert(k@ =~= key_hostname());
        } else {
            assert(k@ != key_hostname());
        }
    }
    r
}

fn eq_protocol(k: &Vec<u8>) -> (r: bool)
    ensures
        r == (k@ == key_protocol()),
{
    let r = k.len() == 8 && k[0] == 0x70 && k[1] == 0x72 && k[2] == 0x6f && k[3] == 0x74 && k[4] == 0x6f && k[5] == 0x63 && k[6] == 0x6f && k[7] == 0x6c;
    proof {
        if r {
            assert(k@ =~= key_protocol());
        } else {
            assert(k@ != key_protocol());
        }
    }
    r
}

fn eq_port(k: &Vec<u8>) -> (r: bool)
    ensures
        r == (k@ == key_port()),
{
    let r = k.len() == 4 && k[0] == 0x70 && k[1] == 0x6f && k[2] == 0x72 && k[3] == 0x74;
    proof {
        if r {
            assert(k@ =~= key_port());
        } else {
            assert(k@ != key_port());
        }
    }
    r
}

fn eq_product(k: &Vec<u8>) -> (r: bool)
    ensures
        r == (k@ == key_product()),
{
    let r = k.len() == 7 && k[0] == 0x70 && k[1] == 0x72 && k[2] == 0x6f && k[3] == 0x64 && k[4] == 0x75 && k[5] == 0x63 && k[6] == 0x74;
    proof {
        if r {
            assert(k@ =~= key_product());
        } else {
            assert(k@ != key_product());
        }
    }
    r
}

fn eq_version(k: &Vec<u8>) -> (r: bool)
    ensures
        r == (k@ == key_version()),
{
    let r = k.len() == 7 && k[0] == 0x76 && k[1] == 0x65 && k[2] == 0x72 && k[3] == 0x73 && k[4] == 0x69 && k[5] == 0x6f && k[6] == 0x6e;
    proof {
        if r {
            assert(k@ =~= key_version());
        } else {
            assert(k@ != key_version());
        }
    }
    r
}

fn eq_banner(k: &Vec<u8>) -> (r: bool)
    ensures
        r == (k@ == key_banner()),
{
    let r = k.len() == 6 && k[0] == 0x62 && k[1] == 0x61 && k[2] == 0x6e && k[3] == 0x6e && k[4] == 0x65 && k[5] == 0x72;
    proof {
        if r {
            assert(k@ =~= key_banner());
        } else {
            assert(k@ != key_banner());
        }
    }
    r
}

fn eq_name(k: &Vec<u8>) -> (r: bool)
    ensures
        r == (k@ == key_name()),
{
    let r = k.len() == 4 && k[0] == 0x6e && k[1] == 0x61 && k[2] == 0x6d && k[3] == 0x65;
    proof {
        if r {
            assert(k@ =~= key_name());
        } else {
            assert(k@ != key_name());
        }
    }
    r
}

fn eq_cache_key(k: &Vec<u8>) -> (r: bool)
    ensures
        r == (k@ == key_cache_key()),
{
    let r = k.len() == 9 && k[0] == 0x63 && k[1] == 0x61 && k[2] == 0x63 && k[3] == 0x68 && k[4] == 0x65 && k[5] == 0x5f && k[6] == 0x6b && k[7] == 0x65 && k[8] == 0x79;
    proof {
        if r {
            assert(k@ =~= key_cache_key());
        } else {
            assert(k@ != key_cache_key());
        }
    }
    r
}

fn eq_summary(k: &Vec<u8>) -> (r: bool)
    ensures
        r == (k@ == key_summary()),
{
    let r = k.len() == 7 && k[0] == 0x73 && k[1] == 0x75 && k[2] == 0x6d && k[3] == 0x6d && k[4] == 0x61 && k[5] == 0x72 && k[6] == 0x79;
    proof {
        if r {
            assert(k@ =~= key_summary());
        } else {
            assert(k@ != key_summary());
        }
    }
    r
}

fn eq_cas_key(k: &Vec<u8>) -> (r: bool)
    ensures
        r == (k@ == key_cas_key()),
{
    let r = k.len() == 7 && k[0] == 0x63 && k[1] == 0x61 && k[2] == 0x73 && k[3] == 0x5f && k[4] == 0x6b && k[5] == 0x65 && k[6] == 0x79;
    proof {
        if r {
            assert(k@ =~= key_cas_key());
        } else {
            assert(k@ != key_cas_key());
        }
    }
    r
}


fn is_ws(c: u8) -> (r: bool)
    ensures
        r == spec_is_ws(c),
{
    c == 0x20 || c == 0x09 || c == 0x0a || c == 0x0d
}

fn skip_ws(s: &Vec<u8>, i: usize) -> (r: usize)
    requires
        i <= s.len(),
    ensures
        r as int == spec_skip_ws(s@, i as int),
        i <= r <= s.len(),
    decreases s.len() - i,
{
    if i < s.len() && is_ws(s[i]) {
        skip_ws(s, i + 1)
    } else {
        i
    }
}

fn str_end(s: &Vec<u8>, j: usize) -> (r: Option<usize>)
    requires
        j <= s.len(),
    ensures
        match r {
            Some(e) => spec_str_end(s@, j as int) == Some(e as int) && j <= e < s.len(),
            None => spec_str_end(s@, j as int) is None,
        },
    decreases s.len() - j,
{
    if j >= s.len() {
        None
    } else if s[j] == 0x22 {
        Some(j)
    } else if 0x20 <= s[j] && s[j] <= 0x7e && s[j] != 0x5c {
        str_end(s, j + 1)
    } else {
        None
    }
}

fn copy_range(s: &Vec<u8>, a: usize, b: usize) -> (r: Vec<u8>)
    requires
        a <= b <= s.len(),
    ensures
        r@ == s@.subrange(a as int, b as int),
{
    let mut out: Vec<u8> = Vec::new();
    let mut i: usize = a;
    while i < b
        invariant
            a <= i <= b <= s.len(),
            out@ == s@.subrange(a as int, i as int),
        decreases b - i,
    {
        out.push(s[i]);
        proof {
            assert(out@ =~= s@.subrange(a as int, i + 1));
        }
        i = i + 1;
    }
    out
}

fn parse_string(s: &Vec<u8>, i: usize) -> (r: Result<(Vec<u8>, usize), ParseError>)
    requires
        i <= s.len(),
    ensures
        match spec_parse_string(s@, i as int) {
            Ok(p) => r matches Ok(q) && q.0@ == p.0 && q.1 as int == p.1 && q.1 <= s.len(),
            Err(e) => r matches Err(x) && x == e,
        },
{
    if i < s.len() && s[i] == 0x22 {
        match str_end(s, i + 1) {
            Some(e) => {
                let content = copy_range(s, i + 1, e);
                Ok((content, e + 1))
            },
            None => Err(ParseError::Syntax),
        }
    } else {
        Err(ParseError::Syntax)
    }
}

fn num_rec(s: &Vec<u8>, j: usize, acc: u64) -> (r: Result<(u64, usize), ParseError>)
    requires
        j <= s.len(),
    ensures
        match spec_num_rec(s@, j as int, acc) {
            Ok(p) => r matches Ok(q) && q.0 == p.0 && q.1 as int == p.1 && q.1 <= s.len(),
            Err(e) => r matches Err(x) && x == e,
        },
    decreases s.len() - j,
{
    if j < s.len() && 0x30 <= s[j] && s[j] <= 0x39 {
        let d: u64 = (s[j] - 0x30) as u64;
        if acc > (0xffffffffffffffffu64 - d) / 10 {
            Err(ParseError::TypeMismatch)
        } else {
            proof {
                assert(acc * 10 + d <= 0xffffffffffffffff) by (nonlinear_arith)
                    requires
                        d <= 9,
                        acc <= (0xffffffffffffffffu64 - d) / 10,
                ;
            }
            num_rec(s, j + 1, acc * 10 + d)
        }
    } else {
        Ok((acc, j))
    }
}

fn parse_number(s: &Vec<u8>, i: usize) -> (r: Result<(u64, usize), ParseError>)
    requires
        i <= s.len(),
    ensures
        match spec_parse_number(s@, i as int) {
            Ok(p) => r matches Ok(q) && q.0 == p.0 && q.1 as int == p.1 && q.1 <= s.len(),
            Err(e) => r matches Err(x) && x == e,
        },
{
    if i < s.len() && 0x30 <= s[i] && s[i] <= 0x39 {
        num_rec(s, i, 0)
    } else {
        Err(ParseError::Syntax)
    }
}

fn parse_value(s: &Vec<u8>, i: usize) -> (r: Result<(JVal, usize), ParseError>)
    requires
        i <= s.len(),
    ensures
        match spec_parse_value(s@, i as int) {
            Ok(p) => r matches Ok(q) && (match q.0 {
                JVal::Str(v) => p.0 == JValM::Str(v@),
                JVal::Num(n) => p.0 == JValM::Num(n),
            }) && q.1 as int == p.1 && q.1 <= s.len(),
            Err(e) => r matches Err(x) && x == e,
        },
{
    let j = skip_ws(s, i);
    if j < s.len() && s[j] == 0x22 {
        match parse_string(s, j) {
            Ok((v, n)) => Ok((JVal::Str(v), n)),
            Err(e) => Err(e),
        }
    } else if j < s.len() && 0x30 <= s[j] && s[j] <= 0x39 {
        match parse_number(s, j) {
            Ok((v, n)) => Ok((JVal::Num(v), n)),
            Err(e) => Err(e),
        }
    } else {
        Err(ParseError::Syntax)
    }
}

fn parse_field(s: &Vec<u8>, i: usize) -> (r: Result<(Field, usize), ParseError>)
    requires
        i <= s.len(),
    ensures
        match spec_parse_field(s@, i as int) {
            Ok(p) => r matches Ok(q) && field_model(q.0) == p.0 && q.1 as int == p.1 && q.1
                <= s.len(),
            Err(e) => r matches Err(x) && x == e,
        },
{
    let j = skip_ws(s, i);
    match parse_string(s, j) {
        Err(e) => Err(e),
        Ok((k, n)) => {
            let j2 = skip_ws(s, n);
            if j2 < s.len() && s[j2] == 0x3a {
                match parse_value(s, j2 + 1) {
                    Ok((v, n2)) => Ok((Field { key: k, val: v }, n2)),
                    Err(e) => Err(e),
                }
            } else {
                Err(ParseError::Syntax)
            }
        },
    }
}

fn fields_rec(s: &Vec<u8>, i: usize, acc: Vec<Field>, fuel: u64) -> (r: Result<
    (Vec<Field>, usize),
    ParseError,
>)
    requires
        i <= s.len(),
    ensures
        match spec_fields_rec(s@, i as int, fields_model(acc@), fuel as nat) {
            Ok(p) => r matches Ok(q) && fields_model(q.0@) == p.0 && q.1 as int == p.1 && q.1
                <= s.len(),
            Err(e) => r matches Err(x) && x == e,
        },
    decreases fuel,
{
    if fuel == 0 {
        Err(ParseError::Syntax)
    } else {
        let j = skip_ws(s, i);
        if j >= s.len() {
            Err(ParseError::Syntax)
        } else if s[j] == 0x7d {
            Ok((acc, j + 1))
        } else if s[j] == 0x2c {
            match parse_field(s, j + 1) {
                Ok((f, n)) => {
                    let ghost accm = fields_model(acc@);
                    let ghost fm = field_model(f);
                    let mut acc2 = acc;
                    acc2.push(f);
                    proof {
                        assert(fields_model(acc2@) =~= accm.push(fm));
                    }
                    fields_rec(s, n, acc2, fuel - 1)
                },
                Err(e) => Err(e),
            }
        } else {
            Err(ParseError::Syntax)
        }
    }
}

fn parse_fields(s: &Vec<u8>, i: usize, fuel: u64) -> (r: Result<(Vec<Field>, usize), ParseError>)
    requires
        i <= s.len(),
    ensures
        match spec_parse_fields(s@, i as int, fuel as nat) {
            Ok(p) => r matches Ok(q) && fields_model(q.0@) == p.0 && q.1 as int == p.1 && q.1
                <= s.len(),
            Err(e) => r matches Err(x) && x == e,
        },
{
    let j = skip_ws(s, i);
    if j < s.len() && s[j] == 0x7b {
        let j2 = skip_ws(s, j + 1);
        if j2 >= s.len() {
            Err(ParseError::Syntax)
        } else if s[j2] == 0x7d {
            proof {
                assert(fields_model(Seq::<Field>::empty()) =~= Seq::<FieldM>::empty());
            }
            Ok((Vec::new(), j2 + 1))
        } else {
            match parse_field(s, j2) {
                Ok((f, n)) => {
                    let ghost fm = field_model(f);
                    let mut acc: Vec<Field> = Vec::new();
                    acc.push(f);
                    proof {
                        assert(fields_model(acc@) =~= seq![fm]);
                    }
                    fields_rec(s, n, acc, fuel)
                },
                Err(e) => Err(e),
            }
        }
    } else {
        Err(ParseError::Syntax)
    }
}

/// The four sections of a document, as parsed.
struct RawTop {
    host: Option<Vec<Field>>,
    service: Option<Vec<Field>>,
    tool_run: Option<Vec<Field>>,
    evidence: Option<Vec<Field>>,
}

spec fn opt_fields_model(o: Option<Vec<Field>>) -> Option<Seq<FieldM>> {
    match o {
        Some(v) => Some(fields_model(v@)),
        None => None,
    }
}

spec fn raw_top_model(r: RawTop) -> RawTopM {
    RawTopM {
        host: opt_fields_model(r.host),
        service: opt_fields_model(r.service),
        tool_run: opt_fields_model(r.tool_run),
        evidence: opt_fields_model(r.evidence),
    }
}

fn store_section(acc: RawTop, key: &Vec<u8>, fs: Vec<Field>) -> (r: Result<RawTop, ParseError>)
    ensures
        match spec_store_section(raw_top_model(acc), key@, fields_model(fs@)) {
            Ok(a2) => r matches Ok(x) && raw_top_model(x) == a2,
            Err(e) => r matches Err(x) && x == e,
        },
{
    if eq_host(key) {
        if acc.host.is_some() {
            Err(ParseError::DuplicateKey)
        } else {
            Ok(RawTop { host: Some(fs), service: acc.service, tool_run: acc.tool_run, evidence: acc.evidence })
        }
    } else if eq_service(key) {
        if acc.service.is_some() {
            Err(ParseError::DuplicateKey)
        } else {
            Ok(RawTop { host: acc.host, service: Some(fs), tool_run: acc.tool_run, evidence: acc.evidence })
        }
    } else if eq_tool_run(key) {
        if acc.tool_run.is_some() {
            Err(ParseError::DuplicateKey)
        } else {
            Ok(RawTop { host: acc.host, service: acc.service, tool_run: Some(fs), evidence: acc.evidence })
        }
    } else if eq_evidence(key) {
        if acc.evidence.is_some() {
            Err(ParseError::DuplicateKey)
        } else {
            Ok(RawTop { host: acc.host, service: acc.service, tool_run: acc.tool_run, evidence: Some(fs) })
        }
    } else {
        Err(ParseError::UnknownKey)
    }
}

fn parse_top_member(s: &Vec<u8>, i: usize, acc: RawTop, fuel: u64) -> (r: Result<
    (RawTop, usize),
    ParseError,
>)
    requires
        i <= s.len(),
    ensures
        match spec_parse_top_member(s@, i as int, raw_top_model(acc), fuel as nat) {
            Ok(p) => r matches Ok(q) && raw_top_model(q.0) == p.0 && q.1 as int == p.1 && q.1
                <= s.len(),
            Err(e) => r matches Err(x) && x == e,
        },
{
    let j = skip_ws(s, i);
    match parse_string(s, j) {
        Err(e) => Err(e),
        Ok((k, n)) => {
            let j2 = skip_ws(s, n);
            if j2 < s.len() && s[j2] == 0x3a {
                match parse_fields(s, j2 + 1, fuel) {
                    Ok((fs, n2)) => match store_section(acc, &k, fs) {
                        Ok(acc2) => Ok((acc2, n2)),
                        Err(e) => Err(e),
                    },
                    Err(e) => Err(e),
                }
            } else {
                Err(ParseError::Syntax)
            }
        },
    }
}

fn top_rec(s: &Vec<u8>, i: usize, acc: RawTop, fuel: u64) -> (r: Result<
    (RawTop, usize),
    ParseError,
>)
    requires
        i <= s.len(),
    ensures
        match spec_top_rec(s@, i as int, raw_top_model(acc), fuel as nat) {
            Ok(p) => r matches Ok(q) && raw_top_model(q.0) == p.0 && q.1 as int == p.1 && q.1
                <= s.len(),
            Err(e) => r matches Err(x) && x == e,
        },
    decreases fuel,
{
    if fuel == 0 {
        Err(ParseError::Syntax)
    } else {
        let j = skip_ws(s, i);
        if j >= s.len() {
            Err(ParseError::Syntax)
        } else if s[j] == 0x7d {
            Ok((acc, j + 1))
        } else if s[j] == 0x2c {
            match parse_top_member(s, j + 1, acc, fuel - 1) {
                Ok((acc2, n)) => top_rec(s, n, acc2, fuel - 1),
                Err(e) => Err(e),
            }
        } else {
            Err(ParseError::Syntax)
        }
    }
}

fn parse_doc(s: &Vec<u8>) -> (r: Result<(RawTop, usize), ParseError>)
    requires
        s@.len() < 0xffffffffffffffffu64,
    ensures
        match spec_parse_doc(s@) {
            Ok(p) => r matches Ok(q) && raw_top_model(q.0) == p.0 && q.1 as int == p.1 && q.1
                <= s.len(),
            Err(e) => r matches Err(x) && x == e,
        },
{
    let fuel: u64 = s.len() as u64 + 1;
    let empty = RawTop { host: None, service: None, tool_run: None, evidence: None };
    proof {
        assert(raw_top_model(empty) == empty_raw_top());
    }
    let j = skip_ws(s, 0);
    if j < s.len() && s[j] == 0x7b {
        let j2 = skip_ws(s, j + 1);
        if j2 >= s.len() {
            Err(ParseError::Syntax)
        } else if s[j2] == 0x7d {
            Ok((empty, j2 + 1))
        } else {
            match parse_top_member(s, j2, empty, fuel) {
                Ok((acc, n)) => top_rec(s, n, acc, fuel),
                Err(e) => Err(e),
            }
        }
    } else {
        Err(ParseError::Syntax)
    }
}


fn conv_host(fs: &Vec<Field>, i: usize, ip: Option<Vec<u8>>, hostname: Option<Vec<u8>>) -> (r:
    Result<HostUpsert, ParseError>)
    requires
        i <= fs.len(),
    ensures
        match spec_conv_host(fields_model(fs@), i as int, crate::mutation::opt_view(ip),
            crate::mutation::opt_view(hostname)) {
            Ok(h) => r matches Ok(x) && crate::mutation::host_up_model(x) == h
                && crate::mutation::host_upsert_wf(x),
            Err(e) => r matches Err(x) && x == e,
        },
    decreases fs.len() - i,
{
    if i >= fs.len() {
        match ip {
            Some(v) => if v.len() == 0 {
                Err(ParseError::MissingField)
            } else {
                Ok(HostUpsert { ip: v, hostname })
            },
            None => Err(ParseError::MissingField),
        }
    } else {
        let f = &fs[i];
        proof {
            assert(fields_model(fs@)[i as int] == field_model(fs@[i as int]));
        }
        if eq_ip(&f.key) {
            if ip.is_some() {
                Err(ParseError::DuplicateKey)
            } else {
                match &f.val {
                    JVal::Str(v) => conv_host(fs, i + 1, Some(v.clone()), hostname),
                    JVal::Num(_) => Err(ParseError::TypeMismatch),
                }
            }
        } else if eq_hostname(&f.key) {
            if hostname.is_some() {
                Err(ParseError::DuplicateKey)
            } else {
                match &f.val {
                    JVal::Str(v) => conv_host(fs, i + 1, ip, Some(v.clone())),
                    JVal::Num(_) => Err(ParseError::TypeMismatch),
                }
            }
        } else {
            Err(ParseError::UnknownKey)
        }
    }
}

/// A service section before host resolution.
struct SvcPart {
    host: Option<Vec<u8>>,
    protocol: Vec<u8>,
    port: u16,
    product: Option<Vec<u8>>,
    version: Option<Vec<u8>>,
    banner: Option<Vec<u8>>,
}

spec fn svc_part_model(s: SvcPart) -> SvcPartM {
    SvcPartM {
        host: crate::mutation::opt_view(s.host),
        protocol: s.protocol@,
        port: s.port,
        product: crate::mutation::opt_view(s.product),
        version: crate::mutation::opt_view(s.version),
        banner: crate::mutation::opt_view(s.banner),
    }
}

fn conv_service(
    fs: &Vec<Field>,
    i: usize,
    host: Option<Vec<u8>>,
    protocol: Option<Vec<u8>>,
    port: Option<u16>,
    product: Option<Vec<u8>>,
    version: Option<Vec<u8>>,
    banner: Option<Vec<u8>>,
) -> (r: Result<SvcPart, ParseError>)
    requires
        i <= fs.len(),
    ensures
        match spec_conv_service(fields_model(fs@), i as int, crate::mutation::opt_view(host),
            crate::mutation::opt_view(protocol), port, crate::mutation::opt_view(product),
            crate::mutation::opt_view(version), crate::mutation::opt_view(banner)) {
            Ok(sp) => r matches Ok(x) && svc_part_model(x) == sp && x.protocol@.len() > 0,
            Err(e) => r matches Err(x) && x == e,
        },
    decreases fs.len() - i,
{
    if i >= fs.len() {
        match (protocol, port) {
            (Some(pr), Some(po)) => if pr.len() == 0 {
                Err(ParseError::MissingField)
            } else {
                Ok(SvcPart { host, protocol: pr, port: po, product, version, banner })
            },
            _ => Err(ParseError::MissingField),
        }
    } else {
        let f = &fs[i];
        proof {
            assert(fields_model(fs@)[i as int] == field_model(fs@[i as int]));
        }
        if eq_host(&f.key) {
            if host.is_some() {
                Err(ParseError::DuplicateKey)
            } else {
                match &f.val {
                    JVal::Str(v) => conv_service(
                        fs, i + 1, Some(v.clone()), protocol, port, product, version, banner),
                    JVal::Num(_) => Err(ParseError::TypeMismatch),
                }
            }
        } else if eq_protocol(&f.key) {
            if protocol.is_some() {
                Err(ParseError::DuplicateKey)
            } else {
                match &f.val {
                    JVal::Str(v) => conv_service(
                        fs, i + 1, host, Some(v.clone()), port, product, version, banner),
                    JVal::Num(_) => Err(ParseError::TypeMismatch),
                }
            }
        } else if eq_port(&f.key) {
            if port.is_some() {
                Err(ParseError::DuplicateKey)
            } else {
                match &f.val {
                    JVal::Num(n) => if *n > 65535 {
                        Err(ParseError::TypeMismatch)
                    } else {
                        conv_service(
                            fs, i + 1, host, protocol, Some(*n as u16), product, version, banner)
                    },
                    JVal::Str(_) => Err(ParseError::TypeMismatch),
                }
            }
        } else if eq_product(&f.key) {
            if product.is_some() {
                Err(ParseError::DuplicateKey)
            } else {
                match &f.val {
                    JVal::Str(v) => conv_service(
                        fs, i + 1, host, protocol, port, Some(v.clone()), version, banner),
                    JVal::Num(_) => Err(ParseError::TypeMismatch),
                }
            }
        } else if eq_version(&f.key) {
            if version.is_some() {
                Err(ParseError::DuplicateKey)
            } else {
                match &f.val {
                    JVal::Str(v) => conv_service(
                        fs, i + 1, host, protocol, port, product, Some(v.clone()), banner),
                    JVal::Num(_) => Err(ParseError::TypeMismatch),
                }
            }
        } else if eq_banner(&f.key) {
            if banner.is_some() {
                Err(ParseError::DuplicateKey)
            } else {
                match &f.val {
                    JVal::Str(v) => conv_service(
                        fs, i + 1, host, protocol, port, product, version, Some(v.clone())),
                    JVal::Num(_) => Err(ParseError::TypeMismatch),
                }
            }
        } else {
            Err(ParseError::UnknownKey)
        }
    }
}

fn conv_run(
    fs: &Vec<Field>,
    i: usize,
    name: Option<Vec<u8>>,
    version: Option<Vec<u8>>,
    cache_key: Option<Vec<u8>>,
) -> (r: Result<ToolRunDecl, ParseError>)
    requires
        i <= fs.len(),
    ensures
        match spec_conv_run(fields_model(fs@), i as int, crate::mutation::opt_view(name),
            crate::mutation::opt_view(version), crate::mutation::opt_view(cache_key)) {
            Ok(t) => r matches Ok(x) && crate::mutation::run_decl_model(x) == t
                && crate::mutation::tool_run_decl_wf(x),
            Err(e) => r matches Err(x) && x == e,
        },
    decreases fs.len() - i,
{
    if i >= fs.len() {
        match (name, version, cache_key) {
            (Some(n), Some(v), Some(c)) => if n.len() == 0 || v.len() == 0 || c.len() == 0 {
                Err(ParseError::MissingField)
            } else {
                Ok(ToolRunDecl { name: n, version: v, cache_key: c })
            },
            _ => Err(ParseError::MissingField),
        }
    } else {
        let f = &fs[i];
        proof {
            assert(fields_model(fs@)[i as int] == field_model(fs@[i as int]));
        }
        if eq_name(&f.key) {
            if name.is_some() {
                Err(ParseError::DuplicateKey)
            } else {
                match &f.val {
                    JVal::Str(v) => conv_run(fs, i + 1, Some(v.clone()), version, cache_key),
                    JVal::Num(_) => Err(ParseError::TypeMismatch),
                }
            }
        } else if eq_version(&f.key) {
            if version.is_some() {
                Err(ParseError::DuplicateKey)
            } else {
                match &f.val {
                    JVal::Str(v) => conv_run(fs, i + 1, name, Some(v.clone()), cache_key),
                    JVal::Num(_) => Err(ParseError::TypeMismatch),
                }
            }
        } else if eq_cache_key(&f.key) {
            if cache_key.is_some() {
                Err(ParseError::DuplicateKey)
            } else {
                match &f.val {
                    JVal::Str(v) => conv_run(fs, i + 1, name, version, Some(v.clone())),
                    JVal::Num(_) => Err(ParseError::TypeMismatch),
                }
            }
        } else {
            Err(ParseError::UnknownKey)
        }
    }
}

fn conv_evidence(fs: &Vec<Field>, i: usize, cas_key: Option<Vec<u8>>, summary: Option<Vec<u8>>)
    -> (r: Result<EvidenceDecl, ParseError>)
    requires
        i <= fs.len(),
    ensures
        match spec_conv_evidence(fields_model(fs@), i as int, crate::mutation::opt_view(cas_key),
            crate::mutation::opt_view(summary)) {
            Ok(e2) => r matches Ok(x) && crate::mutation::evidence_decl_model(x) == e2
                && crate::mutation::evidence_decl_wf(x),
            Err(e) => r matches Err(x) && x == e,
        },
    decreases fs.len() - i,
{
    if i >= fs.len() {
        match (cas_key, summary) {
            (Some(c), Some(su)) => if !is_valid_key(&c) {
                Err(ParseError::BadCasKey)
            } else {
                Ok(EvidenceDecl { cas_key: c, summary: su })
            },
            _ => Err(ParseError::MissingField),
        }
    } else {
        let f = &fs[i];
        proof {
            assert(fields_model(fs@)[i as int] == field_model(fs@[i as int]));
        }
        if eq_cas_key(&f.key) {
            if cas_key.is_some() {
                Err(ParseError::DuplicateKey)
            } else {
                match &f.val {
                    JVal::Str(v) => conv_evidence(fs, i + 1, Some(v.clone()), summary),
                    JVal::Num(_) => Err(ParseError::TypeMismatch),
                }
            }
        } else if eq_summary(&f.key) {
            if summary.is_some() {
                Err(ParseError::DuplicateKey)
            } else {
                match &f.val {
                    JVal::Str(v) => conv_evidence(fs, i + 1, cas_key, Some(v.clone())),
                    JVal::Num(_) => Err(ParseError::TypeMismatch),
                }
            }
        } else {
            Err(ParseError::UnknownKey)
        }
    }
}

fn assemble(raw: RawTop) -> (r: Result<Mutation, ParseError>)
    ensures
        match spec_assemble(raw_top_model(raw)) {
            Ok(mm) => r matches Ok(m) && mutation_model(m) == mm && mutation_wf(m),
            Err(e) => r matches Err(x) && x == e,
        },
{
    let hostv: Option<HostUpsert> = match &raw.host {
        Some(fs) => match conv_host(fs, 0, None, None) {
            Ok(h) => Some(h),
            Err(e) => {
                return Err(e);
            },
        },
        None => None,
    };
    let svcv: Option<SvcPart> = match &raw.service {
        Some(fs) => match conv_service(fs, 0, None, None, None, None, None, None) {
            Ok(sp) => Some(sp),
            Err(e) => {
                return Err(e);
            },
        },
        None => None,
    };
    let runv: Option<ToolRunDecl> = match &raw.tool_run {
        Some(fs) => match conv_run(fs, 0, None, None, None) {
            Ok(t) => Some(t),
            Err(e) => {
                return Err(e);
            },
        },
        None => None,
    };
    let evv: Option<EvidenceDecl> = match &raw.evidence {
        Some(fs) => match conv_evidence(fs, 0, None, None) {
            Ok(e2) => Some(e2),
            Err(e) => {
                return Err(e);
            },
        },
        None => None,
    };
    match svcv {
        None => Ok(Mutation { host: hostv, service: None, tool_run: runv, evidence: evv }),
        Some(sp) => {
            let hip: Vec<u8> = match sp.host {
                Some(h) => {
                    if h.len() == 0 {
                        return Err(ParseError::MissingField);
                    }
                    h
                },
                None => match &hostv {
                    Some(hu) => hu.ip.clone(),
                    None => {
                        return Err(ParseError::MissingField);
                    },
                },
            };
            Ok(
                Mutation {
                    host: hostv,
                    service: Some(
                        ServiceUpsert {
                            host_ip: hip,
                            protocol: sp.protocol,
                            port: sp.port,
                            product: sp.product,
                            version: sp.version,
                            banner: sp.banner,
                        },
                    ),
                    tool_run: runv,
                    evidence: evv,
                },
            )
        },
    }
}

/// Parses one captured output document into a validated mutation. The
/// result equals the specification parser on every input: a returned
/// mutation is well-formed, and every rejection carries the reason the
/// specification assigns.
pub fn parse(s: &Vec<u8>) -> (r: Result<Mutation, ParseError>)
    requires
        s@.len() < 0xffffffffffffffffu64,
    ensures
        match spec_parse(s@) {
            Ok(mm) => r matches Ok(m) && mutation_model(m) == mm && mutation_wf(m),
            Err(e) => r matches Err(x) && x == e,
        },
{
    match parse_doc(s) {
        Err(e) => Err(e),
        Ok((raw, end)) => {
            let t = skip_ws(s, end);
            if t != s.len() {
                Err(ParseError::TrailingData)
            } else {
                assemble(raw)
            }
        },
    }
}

} // verus!
