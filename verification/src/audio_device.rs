//! A Bluetooth audio device.

use crate::types::MacAddress;
use vstd::prelude::*;

verus! {

/// A Bluetooth peripheral: what it is called and where it is reached.
pub struct AudioDevice {
    name: String,
    mac_address: MacAddress,
}

/// What an `AudioDevice` holds, as plain values.
pub struct AudioDeviceView {
    pub name: Seq<char>,
    pub mac_address: Seq<u8>,
}

impl View for AudioDevice {
    type V = AudioDeviceView;

    closed spec fn view(&self) -> AudioDeviceView {
        AudioDeviceView { name: self.name@, mac_address: self.mac_address@ }
    }
}

impl AudioDevice {
    /// The device called `name` at `mac_address`.
    pub fn new(name: String, mac_address: MacAddress) -> (device: AudioDevice)
        ensures
            device@.name == name@,
            device@.mac_address == mac_address@,
    {
        AudioDevice { name, mac_address }
    }

    /// The hardware address of the device.
    pub fn mac_address(&self) -> (address: MacAddress)
        ensures
            address@ == self@.mac_address,
    {
        self.mac_address
    }

    /// What the device is called.
    pub fn name(&self) -> (name: String)
        ensures
            name@ == self@.name,
    {
        self.name.clone()
    }
}

} // verus!
