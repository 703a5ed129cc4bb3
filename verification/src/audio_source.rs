//! A host that can hold the connection to an audio device, and the command
//! lines that make its Bluetooth controller act.

use crate::audio_device::AudioDevice;
use crate::text::{contains, contains_text};
use crate::types::{ip_text, mac_text, IpAddress};
use vstd::prelude::*;
use vstd::string::StringExecFns;

verus! {

/// A host with a Bluetooth controller: what it is called, the login that
/// reaches it, and its network address.
pub struct AudioSource {
    name: String,
    system_username: String,
    ip_address: IpAddress,
}

/// What an `AudioSource` holds, as plain values.
pub struct AudioSourceView {
    pub name: Seq<char>,
    pub system_username: Seq<char>,
    pub ip_address: Seq<u8>,
}

/// What a finished command left behind.
pub struct CommandOutput {
    /// Whether the command ended with exit status zero.
    pub success: bool,
    /// What it wrote to standard output.
    pub stdout: String,
    /// What it wrote to standard error.
    pub stderr: String,
}

/// The controller command that acts on the device at `mac_address`:
/// `verb` is `connect`, `disconnect` or `info`.
pub open spec fn controller_command(verb: Seq<char>, mac_address: Seq<u8>) -> Seq<char> {
    "bluetoothctl "@ + verb + " "@ + mac_text(mac_address)
}

/// `command` wrapped in a remote login as `username` at `ip_address`, with
/// a terminal forced for it.
pub open spec fn remote_login(username: Seq<char>, ip_address: Seq<u8>, command: Seq<char>) -> Seq<
    char,
> {
    "ssh "@ + username + "@"@ + ip_text(ip_address) + " -t "@ + command
}

impl AudioSourceView {
    /// The line that runs `command` on this source from the host at
    /// `local_ip`: the command itself on that very host, a remote login
    /// from any other.
    pub open spec fn command_line(self, local_ip: Seq<u8>, command: Seq<char>) -> Seq<char> {
        if self.ip_address == local_ip {
            command
        } else {
            remote_login(self.system_username, self.ip_address, command)
        }
    }
}

impl View for AudioSource {
    type V = AudioSourceView;

    closed spec fn view(&self) -> AudioSourceView {
        AudioSourceView {
            name: self.name@,
            system_username: self.system_username@,
            ip_address: self.ip_address@,
        }
    }
}

impl CommandOutput {
    /// The text that counts as the command's answer: its standard output
    /// where it succeeded, its standard error where it failed.
    pub fn text(&self) -> (text: &String)
        ensures
            text@ == if self.success {
                self.stdout@
            } else {
                self.stderr@
            },
    {
        if self.success {
            &self.stdout
        } else {
            &self.stderr
        }
    }
}

impl AudioSource {
    /// The source called `name`, reached as `system_username` at
    /// `ip_address`.
    pub fn new(name: String, system_username: String, ip_address: IpAddress) -> (source:
        AudioSource)
        ensures
            source@.name == name@,
            source@.system_username == system_username@,
            source@.ip_address == ip_address@,
    {
        AudioSource { name, system_username, ip_address }
    }

    /// The network address of the source.
    pub fn ip_address(&self) -> (address: IpAddress)
        ensures
            address@ == self@.ip_address,
    {
        self.ip_address
    }

    /// What the source is called.
    pub fn name(&self) -> (name: String)
        ensures
            name@ == self@.name,
    {
        self.name.clone()
    }

    /// The line to run on the host at `local_ip` so that `command` runs on
    /// this source.
    pub fn command_line(&self, local_ip: &IpAddress, command: &str) -> (line: String)
        ensures
            line@ == self@.command_line(local_ip@, command@),
    {
        if self.ip_address == *local_ip {
            String::from_str(command)
        } else {
            let mut line = String::from_str("ssh ");
            line.append(self.system_username.as_str());
            line.append("@");
            line.append(self.ip_address.to_string().as_str());
            line.append(" -t ");
            line.append(command);
            line
        }
    }

    /// The line to run on the host at `local_ip` so that this source's
    /// controller does `verb` to `device`.
    fn controller_line(&self, verb: &str, device: &AudioDevice, local_ip: &IpAddress) -> (line:
        String)
        ensures
            line@ == self@.command_line(
                local_ip@,
                controller_command(verb@, device@.mac_address),
            ),
    {
        let mut command = String::from_str("bluetoothctl ");
        command.append(verb);
        command.append(" ");
        command.append(device.mac_address().to_string().as_str());
        self.command_line(local_ip, command.as_str())
    }

    /// The line to run on the host at `local_ip` so that this source
    /// connects to `device`.
    pub fn connect(&self, device: &AudioDevice, local_ip: &IpAddress) -> (line: String)
        ensures
            line@ == self@.command_line(
                local_ip@,
                controller_command("connect"@, device@.mac_address),
            ),
    {
        self.controller_line("connect", device, local_ip)
    }

    /// The line to run on the host at `local_ip` so that this source lets
    /// go of `device`.
    pub fn disconnect(&self, device: &AudioDevice, local_ip: &IpAddress) -> (line: String)
        ensures
            line@ == self@.command_line(
                local_ip@,
                controller_command("disconnect"@, device@.mac_address),
            ),
    {
        self.controller_line("disconnect", device, local_ip)
    }

    /// The line to run on the host at `local_ip` so that this source's
    /// controller tells what it knows of `device`.
    pub fn info(&self, device: &AudioDevice, local_ip: &IpAddress) -> (line: String)
        ensures
            line@ == self@.command_line(
                local_ip@,
                controller_command("info"@, device@.mac_address),
            ),
    {
        self.controller_line("info", device, local_ip)
    }

    /// Whether `device_info`, the controller's answer to `info`, reports
    /// the device as connected.
    pub fn is_connected(device_info: &str) -> (connected: bool)
        ensures
            connected == contains_text(device_info@, "Connected: yes"@),
    {
        contains(device_info, "Connected: yes")
    }
}

} // verus!
