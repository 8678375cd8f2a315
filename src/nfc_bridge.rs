use vstd::prelude::*;
use vstd::string::StringExecFns;

use crate::bus::{added, extends, DelayMs, I2cBus, SharedBus, TracedBus, Txn};

verus! {

/// I2C address of the tag-reader bridge.
pub const PICO_NFC_ADDR: u8 = 0x55;

/// Command: report firmware version (answer: status, major, minor).
pub const CMD_GET_VERSION: u8 = 0x01;

/// Command: scan for a tag (answer: status, uid length, uid bytes).
pub const CMD_SCAN_TAG: u8 = 0x10;

/// Longest tag identifier the bridge reports.
pub const MAX_UID_LEN: usize = 10;

/// Length of a scan answer.
pub const SCAN_RESPONSE_LEN: usize = 12;

/// What is known of the tag-reader bridge and the tag in front of it.
#[derive(Debug, Clone, Copy)]
pub struct NfcBridgeState {
    pub initialized: bool,
    /// Major and minor firmware version of the bridge.
    pub firmware_version: (u8, u8),
    pub tag_present: bool,
    pub tag_uid: [u8; 10],
    pub tag_uid_len: u8,
}

impl NfcBridgeState {
    pub open spec fn wf(&self) -> bool {
        &&& self.tag_uid_len <= MAX_UID_LEN
        &&& self.tag_present <==> self.tag_uid_len > 0
    }

    /// The identifier bytes of the present tag.
    pub open spec fn uid(&self) -> Seq<u8> {
        self.tag_uid@.take(self.tag_uid_len as int)
    }

    pub fn new() -> (r: NfcBridgeState)
        ensures
            r.wf(),
            !r.initialized,
            r.firmware_version == (0u8, 0u8),
            !r.tag_present,
            r.tag_uid_len == 0,
            r.tag_uid@ == seq![0u8; 10],
    {
        let r = NfcBridgeState {
            initialized: false,
            firmware_version: (0, 0),
            tag_present: false,
            tag_uid: [0u8; 10],
            tag_uid_len: 0,
        };
        assert(r.tag_uid@ =~= seq![0u8; 10]);
        r
    }

    /// Takes in a scan answer `[status, uid_len, uid...]`: a tag is present
    /// exactly when the status is zero and the length is between 1 and
    /// `MAX_UID_LEN`. Returns whether a tag is present.
    pub fn apply_scan_response(&mut self, resp: &Vec<u8>) -> (r: bool)
        requires
            resp@.len() == SCAN_RESPONSE_LEN,
        ensures
            r == (resp@[0] == 0 && 0 < resp@[1] <= MAX_UID_LEN),
            final(self).tag_present == r,
            final(self).tag_uid_len == (if r { resp@[1] } else { 0 }),
            r ==> final(self).uid() == resp@.subrange(2, 2 + resp@[1] as int),
            final(self).initialized == old(self).initialized,
            final(self).firmware_version == old(self).firmware_version,
            final(self).wf(),
    {
        if resp[0] != 0 {
            self.tag_present = false;
            self.tag_uid_len = 0;
            return false;
        }
        let uid_len = resp[1];
        if uid_len > 0 && (uid_len as usize) <= MAX_UID_LEN {
            let n = uid_len as usize;
            let mut i: usize = 0;
            while i < n
                invariant
                    i <= n <= MAX_UID_LEN,
                    n + 2 <= resp@.len(),
                    forall|k: int| 0 <= k < i ==> self.tag_uid@[k] == resp@[2 + k],
                    self.initialized == old(self).initialized,
                    self.firmware_version == old(self).firmware_version,
                decreases n - i,
            {
                self.tag_uid[i] = resp[2 + i];
                i = i + 1;
            }
            self.tag_present = true;
            self.tag_uid_len = uid_len;
            assert(self.uid() =~= resp@.subrange(2, 2 + resp@[1] as int));
            true
        } else {
            self.tag_present = false;
            self.tag_uid_len = 0;
            false
        }
    }
}

/// Whether a transaction is the one-byte presence read of the bridge.
pub open spec fn is_presence_read(t: Txn) -> bool {
    match t {
        Txn::Read { addr, len, .. } => addr == PICO_NFC_ADDR && len == 1,
        _ => false,
    }
}

/// Whether the bridge answered a presence read.
pub open spec fn presence_answered(t: Txn) -> bool {
    match t {
        Txn::Read { reply, .. } => reply is Some,
        _ => false,
    }
}

/// The answer to a version query, given its read of three bytes: the
/// version when the read worked and its status byte is zero.
pub open spec fn version_of(t: Txn) -> Option<(u8, u8)> {
    match t {
        Txn::Read { reply, .. } => match reply {
            Some(b) => if b.len() == 3 && b[0] == 0 {
                Some((b[1], b[2]))
            } else {
                None
            },
            None => None,
        },
        _ => None,
    }
}

/// Asks the bridge for its firmware version: the query command is written,
/// then (if that worked) three bytes are read back.
pub fn get_version<B: I2cBus, D: DelayMs>(i2c: &mut TracedBus<B>, delay: &mut D) -> (r: Result<
    (u8, u8),
    &'static str,
>)
    ensures
        extends(old(i2c).log(), final(i2c).log()),
        ({
            let a = added(old(i2c).log(), final(i2c).log());
            &&& 1 <= a.len() <= 2
            &&& a[0] == Txn::Write { addr: PICO_NFC_ADDR, bytes: seq![CMD_GET_VERSION], ok: a.len() == 2 }
            &&& a.len() == 2 ==> (match a[1] {
                Txn::Read { addr, len, .. } => addr == PICO_NFC_ADDR && len == 3,
                _ => false,
            })
            &&& r is Ok <==> a.len() == 2 && version_of(a[1]) is Some
            &&& r is Ok ==> r->Ok_0 == version_of(a[1])->0
        }),
{
    let ghost l0 = i2c.log();
    let cmd = vec![CMD_GET_VERSION];
    assert(cmd@ =~= seq![CMD_GET_VERSION]);
    let w = i2c.write(PICO_NFC_ADDR, cmd.as_slice());
    let ghost l1 = i2c.log();
    proof {
        assert(l1.subrange(0, l0.len() as int) =~= l0);
        assert(added(l0, l1) =~= seq![l1.last()]);
    }
    if w.is_err() {
        return Err("I2C write failed");
    }
    delay.delay_ms(10);
    let res = i2c.read(PICO_NFC_ADDR, 3);
    proof {
        let l2 = i2c.log();
        assert(l2.subrange(0, l0.len() as int) =~= l0);
        assert(added(l0, l2) =~= seq![l1.last(), l2.last()]);
    }
    match res {
        Ok(resp) => {
            if resp.len() != 3 {
                Err("I2C read failed")
            } else if resp[0] != 0 {
                Err("Command failed")
            } else {
                Ok((resp[1], resp[2]))
            }
        },
        Err(_) => Err("I2C read failed"),
    }
}

/// Checks that the bridge answers and records its firmware version (left as
/// it was if the version query fails).
pub fn init_bridge<B: I2cBus, D: DelayMs>(
    i2c: &mut TracedBus<B>,
    delay: &mut D,
    state: &mut NfcBridgeState,
) -> (r: Result<(), &'static str>)
    ensures
        extends(old(i2c).log(), final(i2c).log()),
        added(old(i2c).log(), final(i2c).log()).len() >= 1,
        is_presence_read(added(old(i2c).log(), final(i2c).log())[0]),
        r is Ok <==> presence_answered(added(old(i2c).log(), final(i2c).log())[0]),
        r is Ok ==> final(state).initialized,
        r is Err ==> *final(state) == *old(state),
        final(state).tag_present == old(state).tag_present,
        final(state).tag_uid == old(state).tag_uid,
        final(state).tag_uid_len == old(state).tag_uid_len,
{
    let ghost l0 = i2c.log();
    let present = i2c.read(PICO_NFC_ADDR, 1);
    let ghost l1 = i2c.log();
    proof {
        assert(l1.subrange(0, l0.len() as int) =~= l0);
        assert(added(l0, l1) =~= seq![l1.last()]);
    }
    if present.is_err() {
        return Err("Pico not found");
    }
    let version = get_version(i2c, delay);
    proof {
        let l2 = i2c.log();
        assert(l2.subrange(0, l0.len() as int) =~= l0);
        assert(added(l0, l2)[0] == added(l0, l1)[0]) by {
            assert(l2.subrange(0, l1.len() as int) == l1);
            assert(l2[l0.len() as int] == l1[l0.len() as int]);
        }
    }
    match version {
        Ok(version) => {
            state.firmware_version = version;
        },
        Err(_) => {},
    }
    state.initialized = true;
    Ok(())
}

/// Asks the bridge to scan and records the answer; returns whether a tag is
/// present.
pub fn scan_tag<B: I2cBus, D: DelayMs>(
    i2c: &mut TracedBus<B>,
    delay: &mut D,
    state: &mut NfcBridgeState,
) -> (r: Result<bool, &'static str>)
    ensures
        r is Err ==> *final(state) == *old(state),
        r is Ok ==> final(state).tag_present == r->Ok_0 && final(state).wf(),
        final(state).initialized == old(state).initialized,
        final(state).firmware_version == old(state).firmware_version,
{
    let cmd = vec![CMD_SCAN_TAG];
    if i2c.write(PICO_NFC_ADDR, cmd.as_slice()).is_err() {
        return Err("I2C write failed");
    }
    delay.delay_ms(500);
    match i2c.read(PICO_NFC_ADDR, SCAN_RESPONSE_LEN) {
        Ok(resp) => {
            if resp.len() != SCAN_RESPONSE_LEN {
                return Err("I2C read failed");
            }
            Ok(state.apply_scan_response(&resp))
        },
        Err(_) => Err("I2C read failed"),
    }
}

/// Upper-case hexadecimal digit of a value below 16.
pub open spec fn hex_digit(n: int) -> char {
    if n < 10 {
        (('0' as int) + n) as char
    } else {
        (('A' as int) + n - 10) as char
    }
}

/// Two hexadecimal digits of a byte, most significant first.
pub open spec fn hex_byte(b: u8) -> Seq<char> {
    seq![hex_digit(b as int / 16), hex_digit(b as int % 16)]
}

/// Bytes as two-digit hexadecimal groups separated by colons ("04:A1:FF").
pub open spec fn hex_colon(bytes: Seq<u8>) -> Seq<char>
    decreases bytes.len(),
{
    if bytes.len() == 0 {
        seq![]
    } else if bytes.len() == 1 {
        hex_byte(bytes[0])
    } else {
        hex_colon(bytes.drop_last()) + seq![':'] + hex_byte(bytes.last())
    }
}

fn hex_digit_str(n: u8) -> (r: &'static str)
    requires
        n < 16,
    ensures
        r@ == seq![hex_digit(n as int)],
{
    match n {
        0 => { proof { reveal_strlit("0"); } "0" },
        1 => { proof { reveal_strlit("1"); } "1" },
        2 => { proof { reveal_strlit("2"); } "2" },
        3 => { proof { reveal_strlit("3"); } "3" },
        4 => { proof { reveal_strlit("4"); } "4" },
        5 => { proof { reveal_strlit("5"); } "5" },
        6 => { proof { reveal_strlit("6"); } "6" },
        7 => { proof { reveal_strlit("7"); } "7" },
        8 => { proof { reveal_strlit("8"); } "8" },
        9 => { proof { reveal_strlit("9"); } "9" },
        10 => { proof { reveal_strlit("A"); } "A" },
        11 => { proof { reveal_strlit("B"); } "B" },
        12 => { proof { reveal_strlit("C"); } "C" },
        13 => { proof { reveal_strlit("D"); } "D" },
        14 => { proof { reveal_strlit("E"); } "E" },
        _ => { proof { reveal_strlit("F"); } "F" },
    }
}

/// The identifier of the present tag as colon-separated hexadecimal, or
/// `None` without a tag.
pub fn get_uid_hex(state: &NfcBridgeState) -> (r: Option<String>)
    requires
        state.tag_uid_len <= MAX_UID_LEN,
    ensures
        (!state.tag_present || state.tag_uid_len == 0) <==> r is None,
        r is Some ==> r->0@ == hex_colon(state.uid()),
{
    if !state.tag_present || state.tag_uid_len == 0 {
        return None;
    }
    let n = state.tag_uid_len as usize;
    let mut out = String::new();
    let mut i: usize = 0;
    while i < n
        invariant
            0 < n <= MAX_UID_LEN,
            i <= n,
            n == state.tag_uid_len,
            out@ == hex_colon(state.tag_uid@.take(i as int)),
        decreases n - i,
    {
        let b = state.tag_uid[i];
        if i > 0 {
            proof { reveal_strlit(":"); }
            out.append(":");
        }
        out.append(hex_digit_str(b / 16));
        out.append(hex_digit_str(b % 16));
        proof {
            let t = state.tag_uid@.take(i + 1);
            assert(t.drop_last() =~= state.tag_uid@.take(i as int));
            assert(t.last() == b);
            if i == 0 {
                assert(t.len() == 1);
                assert(out@ =~= hex_byte(b));
            } else {
                assert(out@ =~= hex_colon(t.drop_last()) + seq![':'] + hex_byte(b));
            }
        }
        i = i + 1;
    }
    Some(out)
}

/// A snapshot of the tag reader for display.
#[derive(Debug, Clone, Copy)]
pub struct NfcStatus {
    pub initialized: bool,
    pub tag_present: bool,
    pub uid_len: u8,
    pub uid: [u8; 10],
}

/// Owner of the tag-reader state.
pub struct NfcManager {
    state: Option<NfcBridgeState>,
}

impl View for NfcManager {
    type V = Option<NfcBridgeState>;

    closed spec fn view(&self) -> Option<NfcBridgeState> {
        self.state
    }
}

impl NfcManager {
    pub open spec fn wf(&self) -> bool {
        self@ is Some ==> self@->0.wf()
    }

    pub fn new() -> (r: NfcManager)
        ensures
            r@ is None,
            r.wf(),
    {
        NfcManager { state: None }
    }

    /// Brings the bridge up over the shared bus; keeps the state only if that
    /// worked. Returns whether it did.
    pub fn init_nfc_manager<B: I2cBus, D: DelayMs>(
        &mut self,
        bus: &mut SharedBus<B>,
        delay: &mut D,
    ) -> (r: bool)
        requires
            old(self).wf(),
        ensures
            final(self).wf(),
            r ==> final(self)@ is Some && final(self)@->0.initialized && !final(self)@->0.tag_present
                && final(self)@->0.tag_uid_len == 0,
            !r ==> *final(self) == *old(self),
            old(bus).handle() is None ==> !r && *final(bus) == *old(bus),
            old(bus).handle() is Some ==> ({
                let a = added(old(bus).handle()->0.log(), final(bus).handle()->0.log());
                &&& final(bus).handle() is Some
                &&& extends(old(bus).handle()->0.log(), final(bus).handle()->0.log())
                &&& a.len() >= 1
                &&& is_presence_read(a[0])
                &&& r == presence_answered(a[0])
            }),
            final(bus).handle() is Some <==> old(bus).handle() is Some,
    {
        match bus.bus_mut() {
            Some(i2c) => {
                let mut state = NfcBridgeState::new();
                match init_bridge(i2c, delay, &mut state) {
                    Ok(()) => {
                        self.state = Some(state);
                        true
                    },
                    Err(_) => false,
                }
            },
            None => false,
        }
    }

    /// Periodic scan when the bridge is initialized and the bus available.
    pub fn poll_nfc<B: I2cBus, D: DelayMs>(&mut self, bus: &mut SharedBus<B>, delay: &mut D)
        requires
            old(self).wf(),
        ensures
            final(self).wf(),
            !(old(self)@ is Some && old(self)@->0.initialized) ==> *final(self) == *old(self),
            final(bus).handle() is Some <==> old(bus).handle() is Some,
    {
        match &mut self.state {
            Some(state) => {
                if state.initialized {
                    match bus.bus_mut() {
                        Some(i2c) => {
                            let _ = scan_tag(i2c, delay, state);
                        },
                        None => {},
                    }
                }
            },
            None => {},
        }
    }

    /// Snapshot of the tag reader; all clear without a state.
    pub fn nfc_get_status(&self) -> (r: NfcStatus)
        ensures
            self@ is Some ==> r == (NfcStatus {
                initialized: self@->0.initialized,
                tag_present: self@->0.tag_present,
                uid_len: self@->0.tag_uid_len,
                uid: self@->0.tag_uid,
            }),
            self@ is None ==> !r.initialized && !r.tag_present && r.uid_len == 0 && r.uid@ == seq![
                0u8;
                10
            ],
    {
        match &self.state {
            Some(s) => NfcStatus {
                initialized: s.initialized,
                tag_present: s.tag_present,
                uid_len: s.tag_uid_len,
                uid: s.tag_uid,
            },
            None => {
                let r = NfcStatus {
                    initialized: false,
                    tag_present: false,
                    uid_len: 0,
                    uid: [0u8; 10],
                };
                assert(r.uid@ =~= seq![0u8; 10]);
                r
            },
        }
    }

    pub fn nfc_is_initialized(&self) -> (r: bool)
        ensures
            r == (self@ is Some && self@->0.initialized),
    {
        match &self.state {
            Some(s) => s.initialized,
            None => false,
        }
    }

    pub fn nfc_tag_present(&self) -> (r: bool)
        ensures
            r == (self@ is Some && self@->0.tag_present),
    {
        match &self.state {
            Some(s) => s.tag_present,
            None => false,
        }
    }

    /// Length of the present tag's identifier, 0 without a tag.
    pub fn nfc_get_uid_len(&self) -> (r: u8)
        ensures
            r == (if self@ is Some && self@->0.tag_present { self@->0.tag_uid_len } else { 0 }),
    {
        match &self.state {
            Some(s) => if s.tag_present {
                s.tag_uid_len
            } else {
                0
            },
            None => 0,
        }
    }
}

} // verus!
