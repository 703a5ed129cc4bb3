//! Looking for hosts on the local network: which addresses are probed, with
//! what command, and when a probe counts as answered.

use crate::audio_source::CommandOutput;
use crate::types::{ip_text, IpAddress};
use vstd::prelude::*;
use vstd::string::StringExecFns;

verus! {

/// How many addresses a scan probes.
pub const SCAN_SIZE: usize = 255;

/// The bytes of the address that a scan probes at position `index`.
pub open spec fn scan_target(index: int) -> Seq<u8> {
    seq![192u8, 168u8, 1u8, index as u8]
}

/// The command that probes `target` once and waits half a second for the
/// answer.
pub open spec fn probe_text(target: Seq<u8>) -> Seq<char> {
    "ping -c 1 -W 0.5 "@ + ip_text(target)
}

/// The addresses that a scan probes: `192.168.1.0` up to `192.168.1.254`,
/// in this order.
pub fn scan_targets() -> (targets: Vec<IpAddress>)
    ensures
        targets@.len() == SCAN_SIZE,
        forall|i: int| 0 <= i < SCAN_SIZE ==> (#[trigger] targets@[i])@ == scan_target(i),
{
    let mut targets: Vec<IpAddress> = Vec::new();
    let mut last: u8 = 0;
    while last < 255
        invariant
            targets@.len() == last,
            forall|i: int| 0 <= i < last ==> (#[trigger] targets@[i])@ == scan_target(i),
        decreases 255 - last,
    {
        let target = IpAddress::new([192, 168, 1, last]);
        assert(target@ =~= scan_target(last as int));
        targets.push(target);
        last += 1;
    }
    targets
}

/// The command that probes `target`.
pub fn probe_command(target: &IpAddress) -> (command: String)
    ensures
        command@ == probe_text(target@),
{
    let mut command = String::from_str("ping -c 1 -W 0.5 ");
    command.append(target.to_string().as_str());
    command
}

/// Whether a probe found its target: the command could be run and ended
/// with exit status zero. `probe` is `None` where it could not be run.
pub fn responded(probe: &Option<CommandOutput>) -> (found: bool)
    ensures
        found == (probe matches Some(output) && output.success),
{
    match probe {
        Some(output) => output.success,
        None => false,
    }
}

} // verus!
