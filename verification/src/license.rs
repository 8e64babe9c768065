//! The entitlement gateway contract: how license requests are shaped and
//! how the remote service's boolean-success replies are read.
//!
//! The engine does not speak HTTP itself. It renders each request body as
//! JSON text and interprets the outcome a transport hands back; a transport
//! failure is surfaced as a remote failure, never guessed to be a success.

use crate::records::EngineError;
use crate::text::push_char;
use vstd::prelude::*;

verus! {

/// A request to activate a license key on a named instance.
#[derive(Clone, Debug)]
pub struct ActivateLicenseKeyArgs {
    pub license_key: String,
    pub instance_name: String,
}

/// The engine's reading of an activation reply.
#[derive(Clone, Debug)]
pub struct ActivateLicenseKeyResponse {
    pub is_activated: bool,
    pub instance_id: String,
}

/// A request to validate a license key for an instance.
#[derive(Clone, Debug)]
pub struct ValidateLicenseKeyArgs {
    pub license_key: String,
    pub instance_id: String,
}

/// The engine's reading of a validation reply.
#[derive(Clone, Debug)]
pub struct ValidateLicenseKeyResponse {
    pub is_valid: bool,
}

/// A request to deactivate a license key for an instance.
#[derive(Clone, Debug)]
pub struct DeactivateLicenseKeyArgs {
    pub license_key: String,
    pub instance_id: String,
}

/// The engine's reading of a deactivation reply.
#[derive(Clone, Debug)]
pub struct DeactivateLicenseKeyResponse {
    pub is_deactivated: bool,
}

pub open spec fn hex_char(v: int) -> char {
    if v == 0 {
        '0'
    } else if v == 1 {
        '1'
    } else if v == 2 {
        '2'
    } else if v == 3 {
        '3'
    } else if v == 4 {
        '4'
    } else if v == 5 {
        '5'
    } else if v == 6 {
        '6'
    } else if v == 7 {
        '7'
    } else if v == 8 {
        '8'
    } else if v == 9 {
        '9'
    } else if v == 10 {
        'a'
    } else if v == 11 {
        'b'
    } else if v == 12 {
        'c'
    } else if v == 13 {
        'd'
    } else if v == 14 {
        'e'
    } else {
        'f'
    }
}

/// How one character stands inside a JSON string literal: quote and
/// backslash escaped, the named control characters short-escaped, the other
/// control characters written as `\u00..`, and everything else as itself.
pub open spec fn json_escaped_char(c: char) -> Seq<char> {
    if c == '"' {
        seq!['\\', '"']
    } else if c == '\\' {
        seq!['\\', '\\']
    } else if c as u32 == 8 {
        seq!['\\', 'b']
    } else if c as u32 == 9 {
        seq!['\\', 't']
    } else if c as u32 == 10 {
        seq!['\\', 'n']
    } else if c as u32 == 12 {
        seq!['\\', 'f']
    } else if c as u32 == 13 {
        seq!['\\', 'r']
    } else if (c as u32) < 32 {
        seq!['\\', 'u', '0', '0', hex_char(c as u32 as int / 16), hex_char(c as u32 as int % 16)]
    } else {
        seq![c]
    }
}

/// A text escaped for a JSON string literal, character by character.
pub open spec fn json_escaped(s: Seq<char>) -> Seq<char>
    decreases s.len(),
{
    if s.len() == 0 {
        Seq::empty()
    } else {
        json_escaped(s.drop_last()) + json_escaped_char(s.last())
    }
}

/// A whole JSON string literal: the escaped text between quotes.
pub open spec fn json_string_text(s: Seq<char>) -> Seq<char> {
    seq!['"'] + json_escaped(s) + seq!['"']
}

fn hex_digit(v: u32) -> (r: char)
    requires
        v < 16,
    ensures
        r == hex_char(v as int),
{
    match v {
        0 => '0',
        1 => '1',
        2 => '2',
        3 => '3',
        4 => '4',
        5 => '5',
        6 => '6',
        7 => '7',
        8 => '8',
        9 => '9',
        10 => 'a',
        11 => 'b',
        12 => 'c',
        13 => 'd',
        14 => 'e',
        _ => 'f',
    }
}

fn push_json_escaped(out: &mut String, c: char)
    ensures
        final(out)@ == old(out)@ + json_escaped_char(c),
{
    let u: u32 = c as u32;
    if c == '"' {
        push_char(out, '\\');
        push_char(out, '"');
    } else if c == '\\' {
        push_char(out, '\\');
        push_char(out, '\\');
    } else if u == 8 {
        push_char(out, '\\');
        push_char(out, 'b');
    } else if u == 9 {
        push_char(out, '\\');
        push_char(out, 't');
    } else if u == 10 {
        push_char(out, '\\');
        push_char(out, 'n');
    } else if u == 12 {
        push_char(out, '\\');
        push_char(out, 'f');
    } else if u == 13 {
        push_char(out, '\\');
        push_char(out, 'r');
    } else if u < 32 {
        push_char(out, '\\');
        push_char(out, 'u');
        push_char(out, '0');
        push_char(out, '0');
        push_char(out, hex_digit(u / 16));
        push_char(out, hex_digit(u % 16));
    } else {
        push_char(out, c);
    }
    proof {
        assert(final(out)@ =~= old(out)@ + json_escaped_char(c));
    }
}

/// Writes a text as a JSON string literal, quotes included.
#[verifier::loop_isolation(false)]
pub fn json_string(s: &str) -> (r: String)
    ensures
        r@ == json_string_text(s@),
{
    let mut out = String::new();
    push_char(&mut out, '"');
    let n: usize = s.unicode_len();
    let mut i: usize = 0;
    proof {
        assert(s@.take(0) =~= Seq::<char>::empty());
        assert(out@ =~= seq!['"'] + json_escaped(s@.take(0)));
    }
    while i < n
        invariant
            i <= n,
            out@ == seq!['"'] + json_escaped(s@.take(i as int)),
        decreases n - i,
    {
        push_json_escaped(&mut out, s.get_char(i));
        proof {
            assert(s@.take(i + 1).drop_last() =~= s@.take(i as int));
            assert(s@.take(i + 1).last() == s@[i as int]);
            assert(out@ =~= seq!['"'] + json_escaped(s@.take(i + 1)));
        }
        i = i + 1;
    }
    push_char(&mut out, '"');
    proof {
        assert(s@.take(n as int) =~= s@);
        assert(out@ =~= json_string_text(s@));
    }
    out
}

/// The JSON body of an activation request.
pub open spec fn activate_body_text(key: Seq<char>, instance_name: Seq<char>) -> Seq<char> {
    "{\"key\":"@ + json_string_text(key) + ",\"instance_name\":"@ + json_string_text(instance_name)
        + "}"@
}

/// The JSON body of a validation or deactivation request.
pub open spec fn instance_body_text(key: Seq<char>, instance_id: Seq<char>) -> Seq<char> {
    "{\"key\":"@ + json_string_text(key) + ",\"instance_id\":"@ + json_string_text(instance_id)
        + "}"@
}

/// Renders the activation request body the entitlement service expects.
pub fn activate_request_body(args: &ActivateLicenseKeyArgs) -> (r: String)
    ensures
        r@ == activate_body_text(args.license_key@, args.instance_name@),
{
    let mut out = String::from_str("{\"key\":");
    let key = json_string(args.license_key.as_str());
    out.append(key.as_str());
    out.append(",\"instance_name\":");
    let name = json_string(args.instance_name.as_str());
    out.append(name.as_str());
    out.append("}");
    proof {
        assert(out@ =~= activate_body_text(args.license_key@, args.instance_name@));
    }
    out
}

/// Renders a validation or deactivation request body: both name the key and
/// the instance.
pub fn instance_request_body(key: &str, instance_id: &str) -> (r: String)
    ensures
        r@ == instance_body_text(key@, instance_id@),
{
    let mut out = String::from_str("{\"key\":");
    let k = json_string(key);
    out.append(k.as_str());
    out.append(",\"instance_id\":");
    let inst = json_string(instance_id);
    out.append(inst.as_str());
    out.append("}");
    proof {
        assert(out@ =~= instance_body_text(key@, instance_id@));
    }
    out
}

/// The fields of a checkout-session reply, as plain values.
#[derive(Clone, Debug)]
pub struct GenerateCheckoutSessionResponse {
    pub id: String,
    pub object: String,
    pub product: String,
    pub units: Option<String>,
    pub status: String,
    pub checkout_url: String,
    pub mode: String,
}

/// Reads a checkout outcome: a parsed reply yields the checkout URL the
/// caller is to open, and a transport or parse failure is reported, never
/// guessed to be a success.
pub fn interpret_checkout(outcome: Result<GenerateCheckoutSessionResponse, String>) -> (r: Result<
    String,
    EngineError,
>)
    ensures
        match outcome {
            Ok(resp) => match r {
                Ok(url) => url == resp.checkout_url,
                Err(_) => false,
            },
            Err(m) => match r {
                Ok(_) => false,
                Err(e) => e == EngineError::RemoteFailure(m),
            },
        },
{
    match outcome {
        Ok(resp) => Ok(resp.checkout_url),
        Err(m) => Err(EngineError::RemoteFailure(m)),
    }
}

/// Reads an activation outcome: a reply is judged by its success flag alone,
/// and a transport failure is reported, never taken for success.
pub fn interpret_activation(outcome: Result<bool, String>) -> (r: Result<
    ActivateLicenseKeyResponse,
    EngineError,
>)
    ensures
        match outcome {
            Ok(success) => match r {
                Ok(a) => a.is_activated == success && a.instance_id@ == "1"@,
                Err(_) => false,
            },
            Err(m) => match r {
                Ok(_) => false,
                Err(e) => e == EngineError::RemoteFailure(m),
            },
        },
{
    match outcome {
        Ok(success) => Ok(
            ActivateLicenseKeyResponse { is_activated: success, instance_id: String::from_str("1") },
        ),
        Err(m) => Err(EngineError::RemoteFailure(m)),
    }
}

/// Reads a validation outcome.
pub fn interpret_validation(outcome: Result<bool, String>) -> (r: Result<
    ValidateLicenseKeyResponse,
    EngineError,
>)
    ensures
        match outcome {
            Ok(success) => match r {
                Ok(v) => v.is_valid == success,
                Err(_) => false,
            },
            Err(m) => match r {
                Ok(_) => false,
                Err(e) => e == EngineError::RemoteFailure(m),
            },
        },
{
    match outcome {
        Ok(success) => Ok(ValidateLicenseKeyResponse { is_valid: success }),
        Err(m) => Err(EngineError::RemoteFailure(m)),
    }
}

/// Reads a deactivation outcome.
pub fn interpret_deactivation(outcome: Result<bool, String>) -> (r: Result<
    DeactivateLicenseKeyResponse,
    EngineError,
>)
    ensures
        match outcome {
            Ok(success) => match r {
                Ok(d) => d.is_deactivated == success,
                Err(_) => false,
            },
            Err(m) => match r {
                Ok(_) => false,
                Err(e) => e == EngineError::RemoteFailure(m),
            },
        },
{
    match outcome {
        Ok(success) => Ok(DeactivateLicenseKeyResponse { is_deactivated: success }),
        Err(m) => Err(EngineError::RemoteFailure(m)),
    }
}

} // verus!
