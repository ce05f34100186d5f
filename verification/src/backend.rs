//! The transport boundary: the `Backend` interface the orchestrator is
//! verified against, and the decision and validation logic of the two
//! transports — host-specifier classification and parsing, address
//! resolution, status-payload validation, and the USB status-poll policy.
//! The I/O itself (TCP, SNMP, USB bulk transfers) lives outside this
//! library, behind the interface.

use vstd::prelude::*;
use crate::error::PtouchError;
use crate::status::Status;
use crate::strutil::chars_of;
use crate::strutil::chars_to_string;
use vstd::string::StringExecFns;

verus! {

/// The transport interface of one printer connection: a bulk write of a
/// complete command stream, and a status fetch. The network and USB
/// transports implement it outside this library.
pub trait Backend {
    /// Sends a complete command stream to the printer.
    fn send_command(&mut self, data: &[u8]) -> Result<(), PtouchError>;

    /// Fetches the printer's 32-byte status record and decodes it.
    fn get_status(&mut self) -> Result<Status, PtouchError>;
}

/// The two kinds of transport a host specifier can select.
#[derive(Clone, Copy, Debug, PartialEq, Eq, Structural)]
pub enum BackendKind {
    Usb,
    Network,
}

/// `c` is a hexadecimal digit or a colon.
pub open spec fn is_hex_or_colon(c: char) -> bool {
    ||| 48 <= c as u32 <= 57
    ||| 97 <= c as u32 <= 102
    ||| 65 <= c as u32 <= 70
    ||| c == ':'
}

/// A specifier selects USB exactly when it holds a colon and nothing but
/// hexadecimal digits and colons.
pub open spec fn spec_is_usb_specifier(s: Seq<char>) -> bool {
    &&& s.contains(':')
    &&& forall|i: int| 0 <= i < s.len() ==> is_hex_or_colon(#[trigger] s[i])
}

/// Classifies a host specifier: hexadecimal digits and colons select the
/// USB transport, anything else names a network host.
pub fn classify_host(host: &str) -> (r: BackendKind)
    ensures
        r == if spec_is_usb_specifier(host@) {
            BackendKind::Usb
        } else {
            BackendKind::Network
        },
{
    let cs = chars_of(host);
    let mut has_colon: bool = false;
    let mut i: usize = 0;
    while i < cs.len()
        invariant
            i <= cs@.len(),
            cs@ == host@,
            has_colon == cs@.take(i as int).contains(':'),
            forall|j: int| 0 <= j < i ==> is_hex_or_colon(#[trigger] cs@[j]),
        decreases cs@.len() - i,
    {
        let c = cs[i];
        let u: u32 = c as u32;
        let hex = (48 <= u && u <= 57) || (97 <= u && u <= 102) || (65 <= u && u <= 70);
        if c == ':' {
            has_colon = true;
        } else if !hex {
            proof {
                assert(!is_hex_or_colon(cs@[i as int]));
            }
            return BackendKind::Network;
        }
        proof {
            let t0 = cs@.take(i as int);
            let t1 = cs@.take(i + 1);
            if t0.contains(':') {
                let w = t0.index_of(':');
                assert(t1[w] == ':');
                assert(t1.contains(':'));
            }
            if cs@[i as int] == ':' {
                assert(t1[i as int] == ':');
                assert(t1.contains(':'));
            }
            if t1.contains(':') {
                let w = t1.index_of(':');
                if w < i {
                    assert(t0[w] == ':');
                    assert(t0.contains(':'));
                } else {
                    assert(cs@[i as int] == ':');
                }
            }
        }
        i = i + 1;
    }
    proof {
        assert(cs@.take(cs@.len() as int) =~= cs@);
    }
    if has_colon {
        BackendKind::Usb
    } else {
        BackendKind::Network
    }
}

/// The position of the first colon in a specifier.
pub open spec fn spec_find_colon(cs: Seq<char>) -> Option<int>
    decreases cs.len(),
{
    if cs.len() == 0 {
        None
    } else if cs[0] == ':' {
        Some(0)
    } else {
        match spec_find_colon(cs.drop_first()) {
            Some(k) => Some(k + 1),
            None => None,
        }
    }
}

proof fn lemma_find_colon_char(cs: Seq<char>, k: int)
    requires
        0 <= k <= cs.len(),
        forall|j: int| 0 <= j < k ==> #[trigger] cs[j] != ':',
        k == cs.len() || cs[k] == ':',
    ensures
        spec_find_colon(cs) == if k == cs.len() {
            None::<int>
        } else {
            Some(k)
        },
    decreases cs.len(),
{
    if cs.len() > 0 && k > 0 {
        let t = cs.drop_first();
        assert forall|j: int| 0 <= j < k - 1 implies #[trigger] t[j] != ':' by {
            assert(t[j] == cs[j + 1]);
        }
        lemma_find_colon_char(t, k - 1);
    }
}

/// Returns the position of the first colon, if any.
fn find_colon(cs: &Vec<char>) -> (r: Option<usize>)
    ensures
        r matches Some(k) ==> spec_find_colon(cs@) == Some(k as int) && k < cs@.len(),
        r is None ==> spec_find_colon(cs@) is None,
{
    let mut k: usize = 0;
    while k < cs.len() && cs[k] != ':'
        invariant
            k <= cs@.len(),
            forall|j: int| 0 <= j < k ==> #[trigger] cs@[j] != ':',
        decreases cs@.len() - k,
    {
        k = k + 1;
    }
    proof {
        lemma_find_colon_char(cs@, k as int);
    }
    if k < cs.len() {
        Some(k)
    } else {
        None
    }
}

/// `c` as a hexadecimal digit value, or 16 for a non-digit.
pub open spec fn spec_hex_digit_val(c: char) -> int {
    if 48 <= c as u32 <= 57 {
        c as u32 - 48
    } else if 97 <= c as u32 <= 102 {
        c as u32 - 87
    } else if 65 <= c as u32 <= 70 {
        c as u32 - 55
    } else {
        16
    }
}

/// Every character of `cs` is a hexadecimal digit.
pub open spec fn spec_all_hex(cs: Seq<char>) -> bool {
    forall|i: int| 0 <= i < cs.len() ==> spec_hex_digit_val(#[trigger] cs[i]) < 16
}

/// The numeric value of a hexadecimal digit string.
pub open spec fn spec_hex_val(cs: Seq<char>) -> int
    decreases cs.len(),
{
    if cs.len() == 0 {
        0
    } else {
        spec_hex_val(cs.drop_last()) * 16 + spec_hex_digit_val(cs.last())
    }
}

/// A specifier field with every leading `0x` pair removed.
pub open spec fn spec_strip_0x(cs: Seq<char>) -> Seq<char>
    decreases cs.len(),
{
    if cs.len() >= 2 && cs[0] == '0' && cs[1] == 'x' {
        spec_strip_0x(cs.skip(2))
    } else {
        cs
    }
}

/// What parsing a `u16` out of a hexadecimal field yields: the value when
/// the field is nonempty, all hexadecimal digits, and in range.
pub open spec fn spec_parse_u16_hex(cs: Seq<char>) -> Option<u16> {
    if cs.len() > 0 && spec_all_hex(cs) && spec_hex_val(cs) <= u16::MAX {
        Some(spec_hex_val(cs) as u16)
    } else {
        None
    }
}

proof fn lemma_hex_val_nonneg(cs: Seq<char>)
    requires
        spec_all_hex(cs),
    ensures
        spec_hex_val(cs) >= 0,
    decreases cs.len(),
{
    if cs.len() > 0 {
        assert(spec_all_hex(cs.drop_last()));
        lemma_hex_val_nonneg(cs.drop_last());
        vstd::arithmetic::mul::lemma_mul_nonnegative(spec_hex_val(cs.drop_last()), 16);
        vstd::arithmetic::mul::lemma_mul_is_commutative(spec_hex_val(cs.drop_last()), 16);
    }
}

proof fn lemma_hex_val_monotone(cs: Seq<char>, j: int)
    requires
        spec_all_hex(cs),
        0 <= j <= cs.len(),
    ensures
        spec_hex_val(cs.take(j)) <= spec_hex_val(cs),
    decreases cs.len() - j,
{
    if j < cs.len() {
        lemma_hex_val_monotone(cs, j + 1);
        let t = cs.take(j + 1);
        assert(t.drop_last() =~= cs.take(j));
        assert(spec_all_hex(cs.take(j)));
        lemma_hex_val_nonneg(cs.take(j));
        vstd::arithmetic::mul::lemma_mul_inequality(1, 16, spec_hex_val(cs.take(j)));
        vstd::arithmetic::mul::lemma_mul_is_commutative(spec_hex_val(cs.take(j)), 16);
    } else {
        assert(cs.take(j) =~= cs);
    }
}

/// Parses a `u16` out of a hexadecimal field: succeeds exactly when the
/// field is nonempty, all hexadecimal digits, and the value fits.
fn parse_u16_hex(cs: &[char]) -> (r: Option<u16>)
    ensures
        r == spec_parse_u16_hex(cs@),
{
    if cs.len() == 0 {
        return None;
    }
    let mut acc: u16 = 0;
    let mut i: usize = 0;
    while i < cs.len()
        invariant
            i <= cs@.len(),
            cs@.len() > 0,
            spec_all_hex(cs@.take(i as int)),
            acc == spec_hex_val(cs@.take(i as int)),
        decreases cs@.len() - i,
    {
        let u: u32 = cs[i] as u32;
        let d: u32 = if 48 <= u && u <= 57 {
            u - 48
        } else if 97 <= u && u <= 102 {
            u - 87
        } else if 65 <= u && u <= 70 {
            u - 55
        } else {
            16
        };
        if d >= 16 {
            proof {
                assert(spec_hex_digit_val(cs@[i as int]) >= 16);
                assert(!spec_all_hex(cs@));
            }
            return None;
        }
        proof {
            assert(cs@.take(i + 1).drop_last() =~= cs@.take(i as int));
            assert(cs@.take(i + 1).last() == cs@[i as int]);
            assert(spec_all_hex(cs@.take(i + 1)));
        }
        if acc > (0xFFFFu16 - (d as u16)) / 16 {
            proof {
                if spec_all_hex(cs@) && spec_hex_val(cs@) <= u16::MAX {
                    lemma_hex_val_monotone(cs@, i + 1);
                }
            }
            return None;
        }
        acc = acc * 16 + (d as u16);
        i = i + 1;
    }
    proof {
        assert(cs@.take(cs@.len() as int) =~= cs@);
    }
    Some(acc)
}

/// Strips every leading `0x` pair from a specifier field.
fn strip_0x(cs: &[char]) -> (r: &[char])
    ensures
        r@ == spec_strip_0x(cs@),
    decreases cs@.len(),
{
    if cs.len() >= 2 {
        let a = cs[0];
        let b = cs[1];
        if a == '0' && b == 'x' {
            return strip_0x(vstd::slice::slice_subrange(cs, 2, cs.len()));
        }
    }
    cs
}

/// What a USB device specifier denotes: a vendor and a product id in
/// hexadecimal, split at the first colon, each field stripped of leading
/// `0x` pairs.
pub open spec fn spec_usb_ids(s: Seq<char>) -> Option<(u16, u16)> {
    match spec_find_colon(s) {
        Some(k) => match (
            spec_parse_u16_hex(spec_strip_0x(s.take(k))),
            spec_parse_u16_hex(spec_strip_0x(s.skip(k + 1))),
        ) {
            (Some(v), Some(p)) => Some((v, p)),
            _ => None,
        },
        None => None,
    }
}

/// Parses a `vendor_id:product_id` USB device specifier; anything else is
/// a configuration error.
pub fn parse_usb_specifier(host: &str) -> (r: Result<(u16, u16), PtouchError>)
    ensures
        r == match spec_usb_ids(host@) {
            Some(ids) => Ok::<(u16, u16), PtouchError>(ids),
            None => Err::<(u16, u16), PtouchError>(PtouchError::MalformedDeviceSpecifier),
        },
{
    let cs = chars_of(host);
    let k = match find_colon(&cs) {
        Some(k) => k,
        None => {
            return Err(PtouchError::MalformedDeviceSpecifier);
        },
    };
    proof {
        assert(cs@.subrange(0, k as int) =~= host@.take(k as int));
        assert(cs@.subrange(k + 1, cs@.len() as int) =~= host@.skip(k + 1));
    }
    let vendor_part = strip_0x(vstd::slice::slice_subrange(cs.as_slice(), 0, k));
    let product_part = strip_0x(vstd::slice::slice_subrange(cs.as_slice(), k + 1, cs.len()));
    let vendor = parse_u16_hex(vendor_part);
    let product = parse_u16_hex(product_part);
    match (vendor, product) {
        (Some(v), Some(p)) => Ok((v, p)),
        _ => Err(PtouchError::MalformedDeviceSpecifier),
    }
}

/// Resolves a network host specifier to a connect address: the default
/// raw-print port 9100 is appended when the specifier names no port.
pub fn resolve_network_address(host: &str) -> (r: String)
    ensures
        r@ == if spec_find_colon(host@) is Some {
            host@
        } else {
            host@ + ":9100"@
        },
{
    let cs = chars_of(host);
    match find_colon(&cs) {
        Some(_) => host.to_owned(),
        None => {
            let mut r = host.to_owned();
            r.append(":9100");
            r
        },
    }
}

/// The address of the status service for a network host: the host part of
/// the specifier (any `:port` dropped) with the SNMP port 161.
pub fn snmp_status_address(host: &str) -> (r: String)
    ensures
        r@ == match spec_find_colon(host@) {
            Some(k) => host@.take(k) + ":161"@,
            None => host@ + ":161"@,
        },
{
    let cs = chars_of(host);
    let end = match find_colon(&cs) {
        Some(k) => k,
        None => cs.len(),
    };
    proof {
        assert(cs@.subrange(0, end as int) =~= host@.take(end as int));
        if spec_find_colon(host@) is None {
            assert(host@.take(end as int) =~= host@);
        }
    }
    let mut r = chars_to_string(vstd::slice::slice_subrange(cs.as_slice(), 0, end));
    r.append(":161");
    r
}

/// Validates a status payload from the network transport: anything but
/// exactly 32 bytes is a protocol error.
pub fn status_from_snmp_payload(data: &[u8]) -> (r: Result<Status, PtouchError>)
    ensures
        r is Ok <==> data@.len() == 32,
        r matches Ok(s) ==> s@ == data@,
        r matches Err(e) ==> e matches PtouchError::StatusLength { got } && got == data@.len(),
{
    if data.len() != 32 {
        return Err(PtouchError::StatusLength { got: data.len() });
    }
    let mut raw: [u8; 32] = vstd::array::array_fill_for_copy_types(0u8);
    let mut i: usize = 0;
    while i < 32
        invariant
            i <= 32,
            raw@.len() == 32,
            data@.len() == 32,
            forall|j: int| 0 <= j < i ==> raw@[j] == data@[j],
        decreases 32 - i,
    {
        raw[i] = data[i];
        i = i + 1;
    }
    let status = Status::new(raw);
    proof {
        assert(raw@ =~= data@);
    }
    Ok(status)
}

/// One outcome of a bulk-IN read during the USB status poll.
#[derive(Clone, Copy, Debug)]
pub enum UsbReadOutcome {
    /// The read returned this many bytes.
    Received { count: usize },
    /// The read timed out.
    TimedOut,
    /// The read failed with a transport error.
    Failed,
}

/// What the USB status poll does next.
#[derive(Clone, Copy, Debug, PartialEq, Eq, Structural)]
pub enum PollAction {
    /// A full status record arrived: stop polling and decode it.
    Accept,
    /// Wait this many milliseconds and read again.
    Retry { delay_ms: u64 },
    /// The printer stopped answering: treat the connection as closed.
    FailDisconnected,
}

/// The USB status-poll policy for one read outcome: a full 32-byte record
/// is accepted; a short read or a transport error is retried after a short
/// pause; a timeout is tolerated while the poll is young and treated as a
/// closed connection once `elapsed_ms` reaches the response threshold.
pub open spec fn spec_poll_step(outcome: UsbReadOutcome, elapsed_ms: u64) -> PollAction {
    match outcome {
        UsbReadOutcome::Received { count } => if count >= 32 {
            PollAction::Accept
        } else {
            PollAction::Retry { delay_ms: 5 }
        },
        UsbReadOutcome::TimedOut => if elapsed_ms < 2000 {
            PollAction::Retry { delay_ms: 100 }
        } else {
            PollAction::FailDisconnected
        },
        UsbReadOutcome::Failed => PollAction::Retry { delay_ms: 5 },
    }
}

/// Decides the next step of the USB status poll from one read outcome and
/// the time elapsed since the poll began.
pub fn poll_step(outcome: &UsbReadOutcome, elapsed_ms: u64) -> (r: PollAction)
    ensures
        r == spec_poll_step(*outcome, elapsed_ms),
{
    match outcome {
        UsbReadOutcome::Received { count } => {
            if *count >= 32 {
                PollAction::Accept
            } else {
                PollAction::Retry { delay_ms: 5 }
            }
        },
        UsbReadOutcome::TimedOut => {
            if elapsed_ms < 2000 {
                PollAction::Retry { delay_ms: 100 }
            } else {
                PollAction::FailDisconnected
            }
        },
        UsbReadOutcome::Failed => PollAction::Retry { delay_ms: 5 },
    }
}

/// Whether the USB status poll has exhausted its overall deadline.
pub fn poll_deadline_exceeded(elapsed_ms: u64) -> (r: bool)
    ensures
        r == (elapsed_ms > 3000),
{
    elapsed_ms > 3000
}

} // verus!
