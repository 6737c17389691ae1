use enigma_simulator::{EnigmaBuilder, EnigmaMachine};
use vstd::prelude::*;

verus! {

/// Highest rotor number that a configuration may choose.
pub const MAX_ROTOR_NUM: u8 = 6;

/// Highest ring setting.
pub const MAX_RING_SETTINGS_NUM: u8 = 26;

/// Highest starting position of a rotor.
pub const MAX_ROTOR_POSITIONS_NUM: u8 = 26;

/// Largest number of cables on the plugboard.
pub const MAX_PLUGS: usize = 10;

/// A candidate machine configuration: the genome of the search.
#[derive(Hash, PartialEq, Eq, Debug)]
pub struct Settings {
    pub rotors: (u8, u8, u8),
    pub ring_settings: (u8, u8, u8),
    pub rotor_positions: (u8, u8, u8),
    pub plugboard: Vec<(char, char)>,
}

/// The mathematical value of a configuration.
pub struct SettingsView {
    pub rotors: (u8, u8, u8),
    pub ring_settings: (u8, u8, u8),
    pub rotor_positions: (u8, u8, u8),
    pub plugboard: Seq<(char, char)>,
}

impl View for Settings {
    type V = SettingsView;

    open spec fn view(&self) -> SettingsView {
        SettingsView {
            rotors: self.rotors,
            ring_settings: self.ring_settings,
            rotor_positions: self.rotor_positions,
            plugboard: self.plugboard@,
        }
    }
}

/// A copy of a plugboard, cable by cable.
pub fn copy_plugs(plugs: &[(char, char)]) -> (r: Vec<(char, char)>)
    ensures
        r@ == plugs@,
{
    let mut r: Vec<(char, char)> = Vec::new();
    let mut k: usize = 0;
    while k < plugs.len()
        invariant
            k <= plugs@.len(),
            r@ == plugs@.subrange(0, k as int),
        decreases plugs@.len() - k,
    {
        r.push(plugs[k]);
        k = k + 1;
        assert(r@ =~= plugs@.subrange(0, k as int));
    }
    assert(r@ =~= plugs@);
    r
}

impl Clone for Settings {
    fn clone(&self) -> (r: Settings)
        ensures
            r@ == self@,
    {
        Settings {
            rotors: self.rotors,
            ring_settings: self.ring_settings,
            rotor_positions: self.rotor_positions,
            plugboard: copy_plugs(self.plugboard.as_slice()),
        }
    }
}

/// The three values of a triple are pairwise different.
pub open spec fn triple_distinct(t: (u8, u8, u8)) -> bool {
    t.0 != t.1 && t.1 != t.2 && t.0 != t.2
}

/// Every value of a triple lies in `[lo, hi]`.
pub open spec fn triple_in_range(t: (u8, u8, u8), lo: u8, hi: u8) -> bool {
    lo <= t.0 <= hi && lo <= t.1 <= hi && lo <= t.2 <= hi
}

/// An upper-case Latin letter.
pub open spec fn is_plug_letter(c: char) -> bool {
    'A' <= c <= 'Z'
}

/// A cable joins two different letters of the alphabet.
pub open spec fn plug_well_formed(p: (char, char)) -> bool {
    is_plug_letter(p.0) && is_plug_letter(p.1) && p.0 != p.1
}

/// Two cables have no letter in common.
pub open spec fn plugs_disjoint(p: (char, char), q: (char, char)) -> bool {
    p.0 != q.0 && p.0 != q.1 && p.1 != q.0 && p.1 != q.1
}

/// Each cable is well formed and no letter is used by two cables.
pub open spec fn plugboard_valid(p: Seq<(char, char)>) -> bool {
    &&& p.len() <= MAX_PLUGS
    &&& forall|i: int| 0 <= i < p.len() ==> plug_well_formed(#[trigger] p[i])
    &&& forall|i: int, j: int|
        0 <= i < p.len() && 0 <= j < p.len() && i != j ==> plugs_disjoint(p[i], p[j])
}

/// The invariant of every configuration that the search hands on.
pub open spec fn settings_valid(s: SettingsView) -> bool {
    &&& triple_distinct(s.rotors)
    &&& triple_in_range(s.rotors, 1, MAX_ROTOR_NUM)
    &&& triple_in_range(s.ring_settings, 1, MAX_RING_SETTINGS_NUM)
    &&& triple_in_range(s.rotor_positions, 1, MAX_ROTOR_POSITIONS_NUM)
    &&& plugboard_valid(s.plugboard)
}

/// Whether the three values of `t` are pairwise different.
pub fn is_triple_unique(t: (u8, u8, u8)) -> (r: bool)
    ensures
        r == triple_distinct(t),
{
    t.0 != t.1 && t.1 != t.2 && t.0 != t.2
}

/// Whether every value of `t` lies in `[lo, hi]`.
pub fn is_triple_in_range(t: (u8, u8, u8), lo: u8, hi: u8) -> (r: bool)
    ensures
        r == triple_in_range(t, lo, hi),
{
    lo <= t.0 && t.0 <= hi && lo <= t.1 && t.1 <= hi && lo <= t.2 && t.2 <= hi
}

/// Whether `next` shares no letter with any cable of `plugs`.
pub fn can_add_plug(plugs: &[(char, char)], next: (char, char)) -> (r: bool)
    ensures
        r == forall|i: int| 0 <= i < plugs@.len() ==> plugs_disjoint(#[trigger] plugs@[i], next),
{
    let mut k: usize = 0;
    while k < plugs.len()
        invariant
            k <= plugs@.len(),
            forall|i: int| 0 <= i < k ==> plugs_disjoint(#[trigger] plugs@[i], next),
        decreases plugs@.len() - k,
    {
        let p = plugs[k];
        if !(p.0 != next.0 && p.1 != next.0 && p.0 != next.1 && p.1 != next.1) {
            return false;
        }
        k = k + 1;
    }
    true
}

/// Whether `p` joins two different upper-case letters.
pub fn is_plug_well_formed(p: (char, char)) -> (r: bool)
    ensures
        r == plug_well_formed(p),
{
    'A' <= p.0 && p.0 <= 'Z' && 'A' <= p.1 && p.1 <= 'Z' && p.0 != p.1
}

/// Whether a plugboard keeps the cable limit and uses no letter twice.
pub fn is_plugboard_valid(plugs: &[(char, char)]) -> (r: bool)
    ensures
        r == plugboard_valid(plugs@),
{
    if plugs.len() > MAX_PLUGS {
        return false;
    }
    let mut k: usize = 0;
    while k < plugs.len()
        invariant
            k <= plugs@.len() <= MAX_PLUGS,
            forall|i: int| 0 <= i < k ==> plug_well_formed(#[trigger] plugs@[i]),
            forall|i: int, j: int|
                0 <= i < k && 0 <= j < plugs@.len() && i != j ==> plugs_disjoint(plugs@[i], plugs@[j]),
        decreases plugs@.len() - k,
    {
        if !is_plug_well_formed(plugs[k]) {
            return false;
        }
        let mut m: usize = 0;
        while m < plugs.len()
            invariant
                k < plugs@.len(),
                m <= plugs@.len(),
                forall|j: int| 0 <= j < m && j != k ==> plugs_disjoint(plugs@[k as int], plugs@[j]),
            decreases plugs@.len() - m,
        {
            if m != k {
                let p = plugs[k];
                let q = plugs[m];
                if !(p.0 != q.0 && p.0 != q.1 && p.1 != q.0 && p.1 != q.1) {
                    assert(!plugs_disjoint(plugs@[k as int], plugs@[m as int]));
                    return false;
                }
            }
            m = m + 1;
        }
        k = k + 1;
    }
    true
}

/// Whether `s` satisfies the invariant of a configuration.
pub fn is_settings_valid(s: &Settings) -> (r: bool)
    ensures
        r == settings_valid(s@),
{
    is_triple_unique(s.rotors) && is_triple_in_range(s.rotors, 1, MAX_ROTOR_NUM)
        && is_triple_in_range(s.ring_settings, 1, MAX_RING_SETTINGS_NUM)
        && is_triple_in_range(s.rotor_positions, 1, MAX_ROTOR_POSITIONS_NUM)
        && is_plugboard_valid(s.plugboard.as_slice())
}

/// Every character of `t` is an ASCII character.
pub open spec fn ascii_text(t: Seq<char>) -> bool {
    forall|i: int| 0 <= i < t.len() ==> (#[trigger] t[i] as u32) < 128
}

/// Every character of `t` is an ASCII character other than a lower-case
/// letter: the texts that the machine leaves in their own alphabet.
pub open spec fn upper_ascii_text(t: Seq<char>) -> bool {
    forall|i: int| 0 <= i < t.len() ==> (#[trigger] t[i] as u32) < 128 && !('a' <= t[i] <= 'z')
}

/// Whether every character of `text` is an ASCII character.
pub fn is_ascii_text(text: &str) -> (r: bool)
    ensures
        r == ascii_text(text@),
{
    let mut ok = true;
    for c in it: text.chars()
        invariant
            it.seq() == text@,
            ok == forall|i: int| 0 <= i < it.index() ==> (#[trigger] text@[i] as u32) < 128,
    {
        ok = ok && (c as u32) < 128;
    }
    ok
}

#[verifier::external_type_specification]
#[verifier::external_body]
pub struct ExEnigmaMachine(EnigmaMachine);

#[verifier::external_type_specification]
#[verifier::external_body]
pub struct ExAnyhowError(anyhow::Error);

/// What an Enigma machine built from the settings `s` (reflector B) makes of
/// the text `t`.
pub uninterp spec fn enigma_text(s: SettingsView, t: Seq<char>) -> Seq<char>;

/// Relies on `EnigmaMachine::new` and `EnigmaBuilder::reflector`: a blank
/// machine, which is always `Ok`, given the named reflector; `"B"` names one.
/// `new` hands out an unnameable builder, so the first builder call stands
/// with it.
#[verifier::external_body]
fn blank_machine(reflector: &str) -> (r: anyhow::Result<EnigmaMachine>)
    ensures
        reflector@ == seq!['B'] ==> r is Ok,
{
    EnigmaMachine::new().reflector(reflector)
}

/// Relies on `EnigmaBuilder::rotors`: an error stays an error; rotor numbers
/// in `[1, 8]` are accepted.
#[verifier::external_body]
fn set_rotors(m: anyhow::Result<EnigmaMachine>, a: u8, b: u8, c: u8) -> (r: anyhow::Result<
    EnigmaMachine,
>)
    ensures
        m is Err ==> r is Err,
        m is Ok && 1 <= a <= 8 && 1 <= b <= 8 && 1 <= c <= 8 ==> r is Ok,
{
    m.rotors(a, b, c)
}

/// Relies on `EnigmaBuilder::ring_positions`: an error stays an error; values
/// in `[1, 26]` are accepted. It subtracts one from each value, so a zero
/// would overflow.
#[verifier::external_body]
fn set_ring_positions(m: anyhow::Result<EnigmaMachine>, a: u8, b: u8, c: u8) -> (r:
    anyhow::Result<EnigmaMachine>)
    requires
        m is Err || (1 <= a && 1 <= b && 1 <= c),
    ensures
        m is Err ==> r is Err,
        m is Ok && a <= 26 && b <= 26 && c <= 26 ==> r is Ok,
{
    m.ring_positions(a, b, c)
}

/// Relies on `EnigmaBuilder::ring_settings`: an error stays an error; values
/// in `[1, 26]` are accepted. It subtracts one from each value, so a zero
/// would overflow.
#[verifier::external_body]
fn set_ring_settings(m: anyhow::Result<EnigmaMachine>, a: u8, b: u8, c: u8) -> (r:
    anyhow::Result<EnigmaMachine>)
    requires
        m is Err || (1 <= a && 1 <= b && 1 <= c),
    ensures
        m is Err ==> r is Err,
        m is Ok && a <= 26 && b <= 26 && c <= 26 ==> r is Ok,
{
    m.ring_settings(a, b, c)
}

/// Relies on `EnigmaBuilder::plugboard`, which takes the cables as
/// space-separated letter pairs: an error stays an error; pairs of two
/// different upper-case letters, no letter used twice, are accepted.
#[verifier::external_body]
fn set_plugboard(m: anyhow::Result<EnigmaMachine>, plugs: &[(char, char)]) -> (r: anyhow::Result<
    EnigmaMachine,
>)
    requires
        forall|i: int| 0 <= i < plugs@.len() ==> plug_well_formed(#[trigger] plugs@[i]),
    ensures
        m is Err ==> r is Err,
        m is Ok && plugboard_valid(plugs@) ==> r is Ok,
{
    let pairs: Vec<String> = plugs.iter().map(|p| format!("{}{}", p.0, p.1)).collect();
    m.plugboard(&pairs.join(" "))
}

/// Why no machine was built.
#[derive(Clone, Copy, Debug, PartialEq, Eq, Structural)]
pub enum MachineError {
    /// The configuration breaks the configuration invariant.
    InvalidSettings,
}

/// An Enigma machine set up from a valid configuration.
pub struct Machine {
    internal: EnigmaMachine,
    settings: Settings,
}

impl View for Machine {
    type V = SettingsView;

    /// The configuration that the machine was built from.
    closed spec fn view(&self) -> SettingsView {
        self.settings@
    }
}

/// Relies on `EnigmaMachine::decrypt`: its result depends on the machine's
/// settings and the text alone, and it handles any ASCII text (an alphabetic
/// character outside ASCII would make it panic). `m.internal` is the machine
/// that `Machine::new` set up from `m.settings`, the only way to build one.
/// The cipher is its own inverse, as the crate documents
/// (`decrypt(encrypt(text)) == text`); since it upper-cases its input, this
/// holds of texts without lower-case letters.
#[verifier::external_body]
fn machine_decrypt(m: &Machine, text: &str) -> (r: String)
    requires
        ascii_text(text@),
    ensures
        r@ == enigma_text(m@, text@),
        upper_ascii_text(text@) ==> upper_ascii_text(r@) && enigma_text(m@, r@) == text@,
{
    m.internal.decrypt(text)
}

/// Relies on `EnigmaMachine::encrypt`, which the cipher engine defines as
/// `decrypt`: the same text comes out, and it is undone the same way.
#[verifier::external_body]
fn machine_encrypt(m: &Machine, text: &str) -> (r: String)
    requires
        ascii_text(text@),
    ensures
        r@ == enigma_text(m@, text@),
        upper_ascii_text(text@) ==> upper_ascii_text(r@) && enigma_text(m@, r@) == text@,
{
    m.internal.encrypt(text)
}

impl Machine {
    /// A machine with reflector B set up from `s`; refused unless `s` is a
    /// valid configuration.
    pub fn new(s: &Settings) -> (r: Result<Machine, MachineError>)
        ensures
            r is Ok <==> settings_valid(s@),
            r matches Ok(m) ==> m@ == s@,
            r matches Err(e) ==> e == MachineError::InvalidSettings,
    {
        if !is_settings_valid(s) {
            return Err(MachineError::InvalidSettings);
        }
        proof {
            reveal_strlit("B");
            assert("B"@ =~= seq!['B']);
        }
        let m = blank_machine("B");
        let m = set_rotors(m, s.rotors.0, s.rotors.1, s.rotors.2);
        let m = set_ring_positions(m, s.rotor_positions.0, s.rotor_positions.1, s.rotor_positions.2);
        let m = set_ring_settings(m, s.ring_settings.0, s.ring_settings.1, s.ring_settings.2);
        let m = set_plugboard(m, s.plugboard.as_slice());
        match m {
            Ok(internal) => Ok(Machine { internal, settings: s.clone() }),
            Err(_) => Err(MachineError::InvalidSettings),
        }
    }

    /// The plaintext of `text` under this machine; for a text without
    /// lower-case letters, enciphering the plaintext gives `text` back.
    pub fn decrypt(&self, text: &str) -> (r: String)
        requires
            ascii_text(text@),
        ensures
            r@ == enigma_text(self@, text@),
            upper_ascii_text(text@) ==> upper_ascii_text(r@) && enigma_text(self@, r@) == text@,
    {
        machine_decrypt(self, text)
    }

    /// The ciphertext of `text` under this machine; for a text without
    /// lower-case letters, deciphering the ciphertext gives `text` back.
    pub fn encrypt(&self, text: &str) -> (r: String)
        requires
            ascii_text(text@),
        ensures
            r@ == enigma_text(self@, text@),
            upper_ascii_text(text@) ==> upper_ascii_text(r@) && enigma_text(self@, r@) == text@,
    {
        machine_encrypt(self, text)
    }
}

} // verus!
