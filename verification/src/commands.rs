//! The text protocol spoken by the UI over the WebSocket: `parse_command`
//! turns one incoming line into the `Command` that the dispatcher acts on.
//! Numeric fields follow `str::parse` with the fallbacks the protocol uses;
//! floating-point fields are handed on as their text.

use vstd::prelude::*;
use crate::text::{
    starts_with, remove_all, split, parse_unsigned, parse_unsigned_range, remove_all_range,
    chars_of, chars_equal, has_prefix, split_ranges, substring, decimal_digits, is_digit,
    lemma_split_first, lemma_split_single, lemma_digits_lack, lemma_parse_formatted,
};
use crate::timing::{BeatDivision, spec_parse_beat_division, parse_beat_division_chars};
use crate::modulation::{ModSource, spec_mod_source, parse_mod_source};

verus! {

/// Which tempo-locked division field of a sound a division command edits.
#[derive(Debug, Clone, Copy, PartialEq, Eq, Structural)]
pub enum DivisionField {
    Lfo1Division,
    Lfo2Division,
    DecayDivision,
}

/// The field named by the second piece of a division command.
pub open spec fn spec_division_field(s: Seq<char>) -> Option<DivisionField> {
    if s == "lfo1"@ || s == "lfo1_division"@ {
        Some(DivisionField::Lfo1Division)
    } else if s == "lfo2"@ || s == "lfo2_division"@ {
        Some(DivisionField::Lfo2Division)
    } else if s == "decay"@ || s == "decay_division"@ {
        Some(DivisionField::DecayDivision)
    } else {
        None
    }
}

/// Parse a division field name.
pub fn parse_division_field(v: &Vec<char>) -> (r: Option<DivisionField>)
    ensures
        r == spec_division_field(v@),
{
    if chars_equal(v, "lfo1") || chars_equal(v, "lfo1_division") {
        Some(DivisionField::Lfo1Division)
    } else if chars_equal(v, "lfo2") || chars_equal(v, "lfo2_division") {
        Some(DivisionField::Lfo2Division)
    } else if chars_equal(v, "decay") || chars_equal(v, "decay_division") {
        Some(DivisionField::DecayDivision)
    } else {
        None
    }
}

/// One decoded UI command. `Ignored` stands for a line the dispatcher does
/// nothing with: an unknown command or a malformed known one.
#[derive(Debug)]
pub enum Command {
    ListMidi,
    ListAudio,
    ListHosts,
    SelectHost { host: String },
    GetKit,
    GetSchema { slot: usize },
    ListMappingPresets,
    LoadMappingPreset { name: String },
    GetMapping,
    UpdateMapping { slot: usize, note: u8 },
    LoadSoundPreset { name: String, slot: usize },
    ListKits,
    SaveKitAs { name: String },
    LoadKit { name: String },
    SetParam { slot: usize, param: String, value: String },
    SetPan { slot: usize, value: String },
    SetDivision { slot: usize, field: DivisionField, division: Option<BeatDivision> },
    SetMod { slot: usize, param: String, source: ModSource, depth: String },
    SetLfo { slot: usize, index: usize, freq: String },
    SelectMidi { index: usize },
    SyncStart,
    SyncStop,
    SetAutoSync { enabled: bool },
    GetSyncStatus,
    SelectAudio { index: usize },
    AnalyzeSlot { slot: usize },
    TestTrigger { slot: usize },
    ListMidiTracks,
    PlayMidiTrack { name: String },
    StopMidiPlayback,
    Ignored,
}

/// The mathematical meaning of a `Command`: strings are character sequences.
pub enum CommandView {
    ListMidi,
    ListAudio,
    ListHosts,
    SelectHost { host: Seq<char> },
    GetKit,
    GetSchema { slot: nat },
    ListMappingPresets,
    LoadMappingPreset { name: Seq<char> },
    GetMapping,
    UpdateMapping { slot: nat, note: nat },
    LoadSoundPreset { name: Seq<char>, slot: nat },
    ListKits,
    SaveKitAs { name: Seq<char> },
    LoadKit { name: Seq<char> },
    SetParam { slot: nat, param: Seq<char>, value: Seq<char> },
    SetPan { slot: nat, value: Seq<char> },
    SetDivision { slot: nat, field: DivisionField, division: Option<BeatDivision> },
    SetMod { slot: nat, param: Seq<char>, source: ModSource, depth: Seq<char> },
    SetLfo { slot: nat, index: nat, freq: Seq<char> },
    SelectMidi { index: nat },
    SyncStart,
    SyncStop,
    SetAutoSync { enabled: bool },
    GetSyncStatus,
    SelectAudio { index: nat },
    AnalyzeSlot { slot: nat },
    TestTrigger { slot: nat },
    ListMidiTracks,
    PlayMidiTrack { name: Seq<char> },
    StopMidiPlayback,
    Ignored,
}

impl View for Command {
    type V = CommandView;

    open spec fn view(&self) -> CommandView {
        match self {
            Command::ListMidi => CommandView::ListMidi,
            Command::ListAudio => CommandView::ListAudio,
            Command::ListHosts => CommandView::ListHosts,
            Command::SelectHost { host } => CommandView::SelectHost { host: host@ },
            Command::GetKit => CommandView::GetKit,
            Command::GetSchema { slot } => CommandView::GetSchema { slot: *slot as nat },
            Command::ListMappingPresets => CommandView::ListMappingPresets,
            Command::LoadMappingPreset { name } => CommandView::LoadMappingPreset { name: name@ },
            Command::GetMapping => CommandView::GetMapping,
            Command::UpdateMapping { slot, note } => CommandView::UpdateMapping {
                slot: *slot as nat,
                note: *note as nat,
            },
            Command::LoadSoundPreset { name, slot } => CommandView::LoadSoundPreset {
                name: name@,
                slot: *slot as nat,
            },
            Command::ListKits => CommandView::ListKits,
            Command::SaveKitAs { name } => CommandView::SaveKitAs { name: name@ },
            Command::LoadKit { name } => CommandView::LoadKit { name: name@ },
            Command::SetParam { slot, param, value } => CommandView::SetParam {
                slot: *slot as nat,
                param: param@,
                value: value@,
            },
            Command::SetPan { slot, value } => CommandView::SetPan {
                slot: *slot as nat,
                value: value@,
            },
            Command::SetDivision { slot, field, division } => CommandView::SetDivision {
                slot: *slot as nat,
                field: *field,
                division: *division,
            },
            Command::SetMod { slot, param, source, depth } => CommandView::SetMod {
                slot: *slot as nat,
                param: param@,
                source: *source,
                depth: depth@,
            },
            Command::SetLfo { slot, index, freq } => CommandView::SetLfo {
                slot: *slot as nat,
                index: *index as nat,
                freq: freq@,
            },
            Command::SelectMidi { index } => CommandView::SelectMidi { index: *index as nat },
            Command::SyncStart => CommandView::SyncStart,
            Command::SyncStop => CommandView::SyncStop,
            Command::SetAutoSync { enabled } => CommandView::SetAutoSync { enabled: *enabled },
            Command::GetSyncStatus => CommandView::GetSyncStatus,
            Command::SelectAudio { index } => CommandView::SelectAudio { index: *index as nat },
            Command::AnalyzeSlot { slot } => CommandView::AnalyzeSlot { slot: *slot as nat },
            Command::TestTrigger { slot } => CommandView::TestTrigger { slot: *slot as nat },
            Command::ListMidiTracks => CommandView::ListMidiTracks,
            Command::PlayMidiTrack { name } => CommandView::PlayMidiTrack { name: name@ },
            Command::StopMidiPlayback => CommandView::StopMidiPlayback,
            Command::Ignored => CommandView::Ignored,
        }
    }
}

/// `s.parse::<usize>().unwrap_or(default)`.
pub open spec fn usize_or(s: Seq<char>, default: nat) -> nat {
    match parse_unsigned(s, usize::MAX as nat) {
        Some(v) => v,
        None => default,
    }
}

/// `s.parse::<u8>().unwrap_or(default)`.
pub open spec fn u8_or(s: Seq<char>, default: nat) -> nat {
    match parse_unsigned(s, u8::MAX as nat) {
        Some(v) => v,
        None => default,
    }
}

/// `UPDATE_MAPPING:<slot>:<note>`
pub open spec fn spec_update_mapping(t: Seq<char>) -> CommandView {
    let p = split(t, ':');
    if p.len() == 3 {
        CommandView::UpdateMapping { slot: usize_or(p[1], 0), note: u8_or(p[2], 0) }
    } else {
        CommandView::Ignored
    }
}

/// `LOAD_SOUND_PRESET:<name>:<slot>`
pub open spec fn spec_load_sound_preset(t: Seq<char>) -> CommandView {
    let p = split(t, ':');
    if p.len() == 3 {
        CommandView::LoadSoundPreset { name: p[1], slot: usize_or(p[2], 0) }
    } else {
        CommandView::Ignored
    }
}

/// `SET_PARAM:<slot>:<param>:<value>`
pub open spec fn spec_set_param(t: Seq<char>) -> CommandView {
    let p = split(t, ':');
    if p.len() == 4 {
        CommandView::SetParam { slot: usize_or(p[1], 0), param: p[2], value: p[3] }
    } else {
        CommandView::Ignored
    }
}

/// `SET_PAN:<slot>:<value>`
pub open spec fn spec_set_pan(t: Seq<char>) -> CommandView {
    let p = split(t, ':');
    if p.len() == 3 {
        CommandView::SetPan { slot: usize_or(p[1], 0), value: p[2] }
    } else {
        CommandView::Ignored
    }
}

/// `SET_DIVISION:<slot>|<field>|<division>` and `CLEAR_DIVISION:<slot>|<field>`.
/// A set whose division does not parse is rejected.
pub open spec fn spec_division_command(t: Seq<char>) -> CommandView {
    let is_set = starts_with(t, "SET_DIVISION:"@);
    let payload = if is_set {
        remove_all(t, "SET_DIVISION:"@)
    } else {
        remove_all(t, "CLEAR_DIVISION:"@)
    };
    let p = split(payload, '|');
    if p.len() >= 2 {
        let division = if is_set && p.len() == 3 {
            spec_parse_beat_division(p[2])
        } else {
            None
        };
        match spec_division_field(p[1]) {
            Some(field) => if !is_set || division is Some {
                CommandView::SetDivision { slot: usize_or(p[0], usize::MAX as nat), field, division }
            } else {
                CommandView::Ignored
            },
            None => CommandView::Ignored,
        }
    } else {
        CommandView::Ignored
    }
}

/// `SET_MOD:<slot>:<param>:<source>:<depth>`
pub open spec fn spec_set_mod(t: Seq<char>) -> CommandView {
    let p = split(t, ':');
    if p.len() == 5 {
        CommandView::SetMod {
            slot: usize_or(p[1], 0),
            param: p[2],
            source: spec_mod_source(p[3]),
            depth: p[4],
        }
    } else {
        CommandView::Ignored
    }
}

/// `SET_LFO:<slot>:<index>:<freq>`; an unreadable index means LFO 1.
pub open spec fn spec_set_lfo(t: Seq<char>) -> CommandView {
    let p = split(t, ':');
    if p.len() == 4 {
        CommandView::SetLfo { slot: usize_or(p[1], 0), index: usize_or(p[2], 1), freq: p[3] }
    } else {
        CommandView::Ignored
    }
}

/// A command whose argument must be a slot number; an unreadable one is ignored.
pub open spec fn spec_slot_command(rest: Seq<char>, analyze: bool) -> CommandView {
    match parse_unsigned(rest, usize::MAX as nat) {
        Some(v) => if analyze {
            CommandView::AnalyzeSlot { slot: v }
        } else {
            CommandView::TestTrigger { slot: v }
        },
        None => CommandView::Ignored,
    }
}

/// The command that a line of the protocol denotes. Branches are tried in
/// this order; the argument of a one-argument command is the line with every
/// occurrence of its prefix removed.
pub open spec fn spec_parse_command(t: Seq<char>) -> CommandView {
    if t == "LIST_MIDI"@ {
        CommandView::ListMidi
    } else if t == "LIST_AUDIO"@ {
        CommandView::ListAudio
    } else if t == "LIST_HOSTS"@ {
        CommandView::ListHosts
    } else if starts_with(t, "SELECT_HOST:"@) {
        CommandView::SelectHost { host: remove_all(t, "SELECT_HOST:"@) }
    } else if t == "GET_KIT"@ {
        CommandView::GetKit
    } else if starts_with(t, "GET_SCHEMA:"@) {
        CommandView::GetSchema { slot: usize_or(remove_all(t, "GET_SCHEMA:"@), 0) }
    } else if t == "LIST_MAPPING_PRESETS"@ {
        CommandView::ListMappingPresets
    } else if starts_with(t, "LOAD_MAPPING_PRESET:"@) {
        CommandView::LoadMappingPreset { name: remove_all(t, "LOAD_MAPPING_PRESET:"@) }
    } else if t == "GET_MAPPING"@ {
        CommandView::GetMapping
    } else if starts_with(t, "UPDATE_MAPPING:"@) {
        spec_update_mapping(t)
    } else if starts_with(t, "LOAD_SOUND_PRESET:"@) {
        spec_load_sound_preset(t)
    } else if t == "LIST_KITS"@ {
        CommandView::ListKits
    } else if starts_with(t, "SAVE_KIT_AS:"@) {
        CommandView::SaveKitAs { name: remove_all(t, "SAVE_KIT_AS:"@) }
    } else if starts_with(t, "LOAD_KIT:"@) {
        CommandView::LoadKit { name: remove_all(t, "LOAD_KIT:"@) }
    } else if starts_with(t, "SET_PARAM:"@) {
        spec_set_param(t)
    } else if starts_with(t, "SET_PAN:"@) {
        spec_set_pan(t)
    } else if starts_with(t, "SET_DIVISION:"@) || starts_with(t, "CLEAR_DIVISION:"@) {
        spec_division_command(t)
    } else if starts_with(t, "SET_MOD:"@) {
        spec_set_mod(t)
    } else if starts_with(t, "SET_LFO:"@) {
        spec_set_lfo(t)
    } else if starts_with(t, "SELECT_MIDI:"@) {
        CommandView::SelectMidi { index: usize_or(remove_all(t, "SELECT_MIDI:"@), 0) }
    } else if t == "SYNC_START"@ {
        CommandView::SyncStart
    } else if t == "SYNC_STOP"@ {
        CommandView::SyncStop
    } else if starts_with(t, "SET_AUTO_SYNC:"@) {
        CommandView::SetAutoSync { enabled: remove_all(t, "SET_AUTO_SYNC:"@) == "true"@ }
    } else if t == "GET_SYNC_STATUS"@ {
        CommandView::GetSyncStatus
    } else if starts_with(t, "SELECT_AUDIO:"@) {
        CommandView::SelectAudio { index: usize_or(remove_all(t, "SELECT_AUDIO:"@), 0) }
    } else if starts_with(t, "ANALYZE_SLOT:"@) {
        spec_slot_command(remove_all(t, "ANALYZE_SLOT:"@), true)
    } else if starts_with(t, "TEST_TRIGGER:"@) {
        spec_slot_command(remove_all(t, "TEST_TRIGGER:"@), false)
    } else if t == "LIST_MIDI_TRACKS"@ {
        CommandView::ListMidiTracks
    } else if starts_with(t, "PLAY_MIDI_TRACK:"@) {
        CommandView::PlayMidiTrack { name: remove_all(t, "PLAY_MIDI_TRACK:"@) }
    } else if t == "STOP_MIDI_PLAYBACK"@ {
        CommandView::StopMidiPlayback
    } else {
        CommandView::Ignored
    }
}

/// `text[lo..hi].parse::<usize>().unwrap_or(default)`.
fn usize_or_range(s: &Vec<char>, lo: usize, hi: usize, default: usize) -> (r: usize)
    requires
        lo <= hi <= s@.len(),
    ensures
        r as nat == usize_or(s@.subrange(lo as int, hi as int), default as nat),
{
    match parse_unsigned_range(s, lo, hi, usize::MAX as u64) {
        Some(v) => v as usize,
        None => default,
    }
}

/// The text with every occurrence of `prefix` removed.
fn argument(text: &str, s: &Vec<char>, prefix: &str) -> (r: String)
    requires
        s@ == text@,
    ensures
        r@ == remove_all(s@, prefix@),
{
    let r = remove_all_range(text, s, 0, s.len(), prefix);
    assert(s@.subrange(0, s@.len() as int) =~= s@);
    r
}

/// The text with every occurrence of `prefix` removed, as characters.
fn argument_chars(text: &str, s: &Vec<char>, prefix: &str) -> (r: Vec<char>)
    requires
        s@ == text@,
    ensures
        r@ == remove_all(s@, prefix@),
{
    let a = argument(text, s, prefix);
    chars_of(a.as_str())
}

fn parse_update_mapping(s: &Vec<char>) -> (r: Command)
    ensures
        r@ == spec_update_mapping(s@),
{
    let p = split_ranges(s, 0, s.len(), ':');
    assert(s@.subrange(0, s@.len() as int) =~= s@);
    if p.len() == 3 {
        let slot = usize_or_range(s, p[1].0, p[1].1, 0);
        let note = match parse_unsigned_range(s, p[2].0, p[2].1, 255) {
            Some(v) => v as u8,
            None => 0,
        };
        assert(p@[1] == p[1]);
        assert(p@[2] == p[2]);
        Command::UpdateMapping { slot, note }
    } else {
        Command::Ignored
    }
}

fn parse_load_sound_preset(text: &str, s: &Vec<char>) -> (r: Command)
    requires
        s@ == text@,
    ensures
        r@ == spec_load_sound_preset(s@),
{
    let p = split_ranges(s, 0, s.len(), ':');
    assert(s@.subrange(0, s@.len() as int) =~= s@);
    if p.len() == 3 {
        assert(p@[1] == p[1]);
        assert(p@[2] == p[2]);
        let name = substring(text, p[1].0, p[1].1);
        let slot = usize_or_range(s, p[2].0, p[2].1, 0);
        Command::LoadSoundPreset { name, slot }
    } else {
        Command::Ignored
    }
}

fn parse_set_param(text: &str, s: &Vec<char>) -> (r: Command)
    requires
        s@ == text@,
    ensures
        r@ == spec_set_param(s@),
{
    let p = split_ranges(s, 0, s.len(), ':');
    assert(s@.subrange(0, s@.len() as int) =~= s@);
    if p.len() == 4 {
        assert(p@[1] == p[1]);
        assert(p@[2] == p[2]);
        assert(p@[3] == p[3]);
        let slot = usize_or_range(s, p[1].0, p[1].1, 0);
        let param = substring(text, p[2].0, p[2].1);
        let value = substring(text, p[3].0, p[3].1);
        Command::SetParam { slot, param, value }
    } else {
        Command::Ignored
    }
}

fn parse_set_pan(text: &str, s: &Vec<char>) -> (r: Command)
    requires
        s@ == text@,
    ensures
        r@ == spec_set_pan(s@),
{
    let p = split_ranges(s, 0, s.len(), ':');
    assert(s@.subrange(0, s@.len() as int) =~= s@);
    if p.len() == 3 {
        assert(p@[1] == p[1]);
        assert(p@[2] == p[2]);
        let slot = usize_or_range(s, p[1].0, p[1].1, 0);
        let value = substring(text, p[2].0, p[2].1);
        Command::SetPan { slot, value }
    } else {
        Command::Ignored
    }
}

fn parse_division_command(text: &str, s: &Vec<char>) -> (r: Command)
    requires
        s@ == text@,
    ensures
        r@ == spec_division_command(s@),
{
    let is_set = has_prefix(s, "SET_DIVISION:");
    let payload = if is_set {
        argument_chars(text, s, "SET_DIVISION:")
    } else {
        argument_chars(text, s, "CLEAR_DIVISION:")
    };
    let p = split_ranges(&payload, 0, payload.len(), '|');
    assert(payload@.subrange(0, payload@.len() as int) =~= payload@);
    if p.len() >= 2 {
        assert(p@[0] == p[0]);
        assert(p@[1] == p[1]);
        let slot = usize_or_range(&payload, p[0].0, p[0].1, usize::MAX);
        let field_chars = slice_chars(&payload, p[1].0, p[1].1);
        let division = if is_set && p.len() == 3 {
            assert(p@[2] == p[2]);
            let div_chars = slice_chars(&payload, p[2].0, p[2].1);
            parse_beat_division_chars(&div_chars)
        } else {
            None
        };
        match parse_division_field(&field_chars) {
            Some(field) => {
                if !is_set || division.is_some() {
                    Command::SetDivision { slot, field, division }
                } else {
                    Command::Ignored
                }
            },
            None => Command::Ignored,
        }
    } else {
        Command::Ignored
    }
}

fn parse_set_mod(text: &str, s: &Vec<char>) -> (r: Command)
    requires
        s@ == text@,
    ensures
        r@ == spec_set_mod(s@),
{
    let p = split_ranges(s, 0, s.len(), ':');
    assert(s@.subrange(0, s@.len() as int) =~= s@);
    if p.len() == 5 {
        assert(p@[1] == p[1]);
        assert(p@[2] == p[2]);
        assert(p@[3] == p[3]);
        assert(p@[4] == p[4]);
        let slot = usize_or_range(s, p[1].0, p[1].1, 0);
        let param = substring(text, p[2].0, p[2].1);
        let source_chars = slice_chars(s, p[3].0, p[3].1);
        let source = parse_mod_source(&source_chars);
        let depth = substring(text, p[4].0, p[4].1);
        Command::SetMod { slot, param, source, depth }
    } else {
        Command::Ignored
    }
}

fn parse_set_lfo(text: &str, s: &Vec<char>) -> (r: Command)
    requires
        s@ == text@,
    ensures
        r@ == spec_set_lfo(s@),
{
    let p = split_ranges(s, 0, s.len(), ':');
    assert(s@.subrange(0, s@.len() as int) =~= s@);
    if p.len() == 4 {
        assert(p@[1] == p[1]);
        assert(p@[2] == p[2]);
        assert(p@[3] == p[3]);
        let slot = usize_or_range(s, p[1].0, p[1].1, 0);
        let index = usize_or_range(s, p[2].0, p[2].1, 1);
        let freq = substring(text, p[3].0, p[3].1);
        Command::SetLfo { slot, index, freq }
    } else {
        Command::Ignored
    }
}

fn parse_slot_command(text: &str, s: &Vec<char>, prefix: &str, analyze: bool) -> (r: Command)
    requires
        s@ == text@,
    ensures
        r@ == spec_slot_command(remove_all(s@, prefix@), analyze),
{
    let rest = argument_chars(text, s, prefix);
    let parsed = parse_unsigned_range(&rest, 0, rest.len(), usize::MAX as u64);
    assert(rest@.subrange(0, rest@.len() as int) =~= rest@);
    match parsed {
        Some(v) => if analyze {
            Command::AnalyzeSlot { slot: v as usize }
        } else {
            Command::TestTrigger { slot: v as usize }
        },
        None => Command::Ignored,
    }
}

/// The characters `s[lo..hi]`.
fn slice_chars(s: &Vec<char>, lo: usize, hi: usize) -> (r: Vec<char>)
    requires
        lo <= hi <= s@.len(),
    ensures
        r@ == s@.subrange(lo as int, hi as int),
{
    let mut r: Vec<char> = Vec::new();
    let mut i = lo;
    while i < hi
        invariant
            lo <= i <= hi <= s@.len(),
            r@ == s@.subrange(lo as int, i as int),
        decreases hi - i,
    {
        r.push(s[i]);
        i = i + 1;
        assert(r@ =~= s@.subrange(lo as int, i as int));
    }
    r
}

/// Decode one line of the UI protocol.
pub fn parse_command(text: &str) -> (r: Command)
    ensures
        r@ == spec_parse_command(text@),
{
    let s = chars_of(text);
    parse_command_chars(text, &s)
}

#[verifier::rlimit(40)]
fn parse_command_chars(text: &str, s: &Vec<char>) -> (r: Command)
    requires
        s@ == text@,
    ensures
        r@ == spec_parse_command(s@),
{
    if chars_equal(s, "LIST_MIDI") {
        Command::ListMidi
    } else if chars_equal(s, "LIST_AUDIO") {
        Command::ListAudio
    } else if chars_equal(s, "LIST_HOSTS") {
        Command::ListHosts
    } else if has_prefix(s, "SELECT_HOST:") {
        Command::SelectHost { host: argument(text, s, "SELECT_HOST:") }
    } else if chars_equal(s, "GET_KIT") {
        Command::GetKit
    } else if has_prefix(s, "GET_SCHEMA:") {
        let a = argument_chars(text, s, "GET_SCHEMA:");
        let slot = usize_or_range(&a, 0, a.len(), 0);
        assert(a@.subrange(0, a@.len() as int) =~= a@);
        Command::GetSchema { slot }
    } else if chars_equal(s, "LIST_MAPPING_PRESETS") {
        Command::ListMappingPresets
    } else if has_prefix(s, "LOAD_MAPPING_PRESET:") {
        Command::LoadMappingPreset { name: argument(text, s, "LOAD_MAPPING_PRESET:") }
    } else if chars_equal(s, "GET_MAPPING") {
        Command::GetMapping
    } else if has_prefix(s, "UPDATE_MAPPING:") {
        parse_update_mapping(s)
    } else if has_prefix(s, "LOAD_SOUND_PRESET:") {
        parse_load_sound_preset(text, s)
    } else if chars_equal(s, "LIST_KITS") {
        Command::ListKits
    } else if has_prefix(s, "SAVE_KIT_AS:") {
        Command::SaveKitAs { name: argument(text, s, "SAVE_KIT_AS:") }
    } else if has_prefix(s, "LOAD_KIT:") {
        Command::LoadKit { name: argument(text, s, "LOAD_KIT:") }
    } else {
        parse_command_rest(text, s)
    }
}

#[verifier::rlimit(40)]
fn parse_command_rest(text: &str, s: &Vec<char>) -> (r: Command)
    requires
        s@ == text@,
        !(s@ == "LIST_MIDI"@ || s@ == "LIST_AUDIO"@ || s@ == "LIST_HOSTS"@ || starts_with(
            s@,
            "SELECT_HOST:"@,
        ) || s@ == "GET_KIT"@ || starts_with(s@, "GET_SCHEMA:"@) || s@ == "LIST_MAPPING_PRESETS"@
            || starts_with(s@, "LOAD_MAPPING_PRESET:"@) || s@ == "GET_MAPPING"@ || starts_with(
            s@,
            "UPDATE_MAPPING:"@,
        ) || starts_with(s@, "LOAD_SOUND_PRESET:"@) || s@ == "LIST_KITS"@ || starts_with(
            s@,
            "SAVE_KIT_AS:"@,
        ) || starts_with(s@, "LOAD_KIT:"@)),
    ensures
        r@ == spec_parse_command(s@),
{
    if has_prefix(s, "SET_PARAM:") {
        parse_set_param(text, s)
    } else if has_prefix(s, "SET_PAN:") {
        parse_set_pan(text, s)
    } else if has_prefix(s, "SET_DIVISION:") || has_prefix(s, "CLEAR_DIVISION:") {
        parse_division_command(text, s)
    } else if has_prefix(s, "SET_MOD:") {
        parse_set_mod(text, s)
    } else if has_prefix(s, "SET_LFO:") {
        parse_set_lfo(text, s)
    } else if has_prefix(s, "SELECT_MIDI:") {
        let a = argument_chars(text, s, "SELECT_MIDI:");
        let index = usize_or_range(&a, 0, a.len(), 0);
        assert(a@.subrange(0, a@.len() as int) =~= a@);
        Command::SelectMidi { index }
    } else if chars_equal(s, "SYNC_START") {
        Command::SyncStart
    } else if chars_equal(s, "SYNC_STOP") {
        Command::SyncStop
    } else if has_prefix(s, "SET_AUTO_SYNC:") {
        let a = argument_chars(text, s, "SET_AUTO_SYNC:");
        Command::SetAutoSync { enabled: chars_equal(&a, "true") }
    } else if chars_equal(s, "GET_SYNC_STATUS") {
        Command::GetSyncStatus
    } else if has_prefix(s, "SELECT_AUDIO:") {
        let a = argument_chars(text, s, "SELECT_AUDIO:");
        let index = usize_or_range(&a, 0, a.len(), 0);
        assert(a@.subrange(0, a@.len() as int) =~= a@);
        Command::SelectAudio { index }
    } else if has_prefix(s, "ANALYZE_SLOT:") {
        parse_slot_command(text, s, "ANALYZE_SLOT:", true)
    } else if has_prefix(s, "TEST_TRIGGER:") {
        parse_slot_command(text, s, "TEST_TRIGGER:", false)
    } else if chars_equal(s, "LIST_MIDI_TRACKS") {
        Command::ListMidiTracks
    } else if has_prefix(s, "PLAY_MIDI_TRACK:") {
        Command::PlayMidiTrack { name: argument(text, s, "PLAY_MIDI_TRACK:") }
    } else if chars_equal(s, "STOP_MIDI_PLAYBACK") {
        Command::StopMidiPlayback
    } else {
        Command::Ignored
    }
}

/// A field of a protocol line: it holds no `:` separator.
pub open spec fn plain_field(s: Seq<char>) -> bool {
    !s.contains(':')
}

/// The line the UI sends to point a slot at a note.
pub open spec fn update_mapping_line(slot: nat, note: nat) -> Seq<char> {
    "UPDATE_MAPPING:"@ + decimal_digits(slot) + ":"@ + decimal_digits(note)
}

/// The line the UI sends to edit one parameter of a slot.
pub open spec fn set_param_line(slot: nat, param: Seq<char>, value: Seq<char>) -> Seq<char> {
    "SET_PARAM:"@ + decimal_digits(slot) + ":"@ + param + ":"@ + value
}

/// The line the UI sends to route a modulation source to a parameter.
pub open spec fn set_mod_line(slot: nat, param: Seq<char>, source: Seq<char>, depth: Seq<char>) -> Seq<char> {
    "SET_MOD:"@ + decimal_digits(slot) + ":"@ + param + ":"@ + source + ":"@ + depth
}

/// The line the UI sends to set the rate of LFO `index` of a slot.
pub open spec fn set_lfo_line(slot: nat, index: nat, freq: Seq<char>) -> Seq<char> {
    "SET_LFO:"@ + decimal_digits(slot) + ":"@ + decimal_digits(index) + ":"@ + freq
}

proof fn lemma_char_differs(t: Seq<char>, p: Seq<char>, k: int)
    requires
        0 <= k < t.len(),
        k < p.len(),
        t[k] != p[k],
    ensures
        t != p,
        !starts_with(t, p),
{
    if starts_with(t, p) {
        assert(t.subrange(0, p.len() as int)[k] == t[k]);
    }
}

proof fn lemma_fields_split(head: Seq<char>, fields: Seq<Seq<char>>)
    requires
        plain_field(head),
        forall|i: int| 0 <= i < fields.len() ==> plain_field(#[trigger] fields[i]),
    ensures
        split(join_fields(head, fields), ':') == seq![head] + fields,
    decreases fields.len(),
{
    if fields.len() == 0 {
        lemma_split_single(head, ':');
        assert(seq![head] + fields =~= seq![head]);
    } else {
        let rest = fields.drop_first();
        assert forall|i: int| 0 <= i < rest.len() implies plain_field(#[trigger] rest[i]) by {
            assert(rest[i] == fields[i + 1]);
        }
        lemma_fields_split(fields[0], rest);
        lemma_split_first(head, join_fields(fields[0], rest), ':');
        assert(seq![head] + (seq![fields[0]] + rest) =~= seq![head] + fields);
    }
}

/// Fields joined by `:` after a first one.
pub open spec fn join_fields(head: Seq<char>, fields: Seq<Seq<char>>) -> Seq<char>
    decreases fields.len(),
{
    if fields.len() == 0 {
        head
    } else {
        head + seq![':'] + join_fields(fields[0], fields.drop_first())
    }
}

proof fn lemma_digits_plain(n: nat)
    ensures
        plain_field(decimal_digits(n)),
{
    lemma_digits_lack(n, ':');
}

/// A well-formed `UPDATE_MAPPING:<slot>:<note>` line decodes to exactly its
/// slot and note.
pub proof fn lemma_update_mapping_line(slot: usize, note: u8)
    ensures
        spec_parse_command(update_mapping_line(slot as nat, note as nat)) == (CommandView::UpdateMapping {
            slot: slot as nat,
            note: note as nat,
        }),
{
    reveal_strlit("UPDATE_MAPPING:");
    reveal_strlit("UPDATE_MAPPING");
    reveal_strlit(":");
    reveal_strlit("LIST_MIDI");
    reveal_strlit("LIST_AUDIO");
    reveal_strlit("LIST_HOSTS");
    reveal_strlit("SELECT_HOST:");
    reveal_strlit("GET_KIT");
    reveal_strlit("GET_SCHEMA:");
    reveal_strlit("LIST_MAPPING_PRESETS");
    reveal_strlit("LOAD_MAPPING_PRESET:");
    reveal_strlit("GET_MAPPING");
    let ds = decimal_digits(slot as nat);
    let dn = decimal_digits(note as nat);
    let t = update_mapping_line(slot as nat, note as nat);
    let head = "UPDATE_MAPPING"@;
    assert(t =~= join_fields(head, seq![ds, dn])) by {
        assert(seq![ds, dn].drop_first() =~= seq![dn]);
        assert(seq![dn].drop_first() =~= Seq::<Seq<char>>::empty());
        assert(join_fields(dn, Seq::<Seq<char>>::empty()) == dn);
        assert(join_fields(ds, seq![dn]) == ds + seq![':'] + dn);
        assert(join_fields(head, seq![ds, dn]) == head + seq![':'] + (ds + seq![':'] + dn));
        assert("UPDATE_MAPPING:"@ =~= head + seq![':']);
        assert(":"@ =~= seq![':']);
    }
    lemma_digits_plain(slot as nat);
    lemma_digits_plain(note as nat);
    assert(plain_field(head));
    lemma_fields_split(head, seq![ds, dn]);
    let p = split(t, ':');
    assert(p =~= seq![head, ds, dn]);
    lemma_parse_formatted(slot as nat, usize::MAX as nat);
    lemma_parse_formatted(note as nat, u8::MAX as nat);
    assert(t[0] == 'U');
    lemma_char_differs(t, "LIST_MIDI"@, 0);
    lemma_char_differs(t, "LIST_AUDIO"@, 0);
    lemma_char_differs(t, "LIST_HOSTS"@, 0);
    lemma_char_differs(t, "SELECT_HOST:"@, 0);
    lemma_char_differs(t, "GET_KIT"@, 0);
    lemma_char_differs(t, "GET_SCHEMA:"@, 0);
    lemma_char_differs(t, "LIST_MAPPING_PRESETS"@, 0);
    lemma_char_differs(t, "LOAD_MAPPING_PRESET:"@, 0);
    lemma_char_differs(t, "GET_MAPPING"@, 0);
    assert(t.subrange(0, 15) =~= "UPDATE_MAPPING:"@);
}

/// A well-formed `SET_PARAM:<slot>:<param>:<value>` line, whose name and
/// value hold no `:`, decodes to exactly its slot, name and value.
pub proof fn lemma_set_param_line(slot: usize, param: Seq<char>, value: Seq<char>)
    requires
        plain_field(param),
        plain_field(value),
    ensures
        spec_parse_command(set_param_line(slot as nat, param, value)) == (CommandView::SetParam {
            slot: slot as nat,
            param,
            value,
        }),
{
    reveal_strlit("LIST_MIDI");
    reveal_strlit("LIST_AUDIO");
    reveal_strlit("LIST_HOSTS");
    reveal_strlit("SELECT_HOST:");
    reveal_strlit("GET_KIT");
    reveal_strlit("GET_SCHEMA:");
    reveal_strlit("LIST_MAPPING_PRESETS");
    reveal_strlit("LOAD_MAPPING_PRESET:");
    reveal_strlit("GET_MAPPING");
    reveal_strlit("UPDATE_MAPPING:");
    reveal_strlit("LOAD_SOUND_PRESET:");
    reveal_strlit("LIST_KITS");
    reveal_strlit("SAVE_KIT_AS:");
    reveal_strlit("LOAD_KIT:");
    reveal_strlit("SET_PARAM:");
    reveal_strlit("SET_PAN:");
    reveal_strlit("SET_DIVISION:");
    reveal_strlit("CLEAR_DIVISION:");
    reveal_strlit("SET_PARAM");
    reveal_strlit(":");
    let ds = decimal_digits(slot as nat);
    let t = set_param_line(slot as nat, param, value);
    let head = "SET_PARAM"@;
    let fields = seq![ds, param, value];
    assert(t =~= join_fields(head, fields)) by {
        assert(fields.drop_first() =~= seq![param, value]);
        assert(seq![param, value].drop_first() =~= seq![value]);
        assert(seq![value].drop_first() =~= Seq::<Seq<char>>::empty());
        assert(join_fields(value, Seq::<Seq<char>>::empty()) == value);
        assert(join_fields(param, seq![value]) == param + seq![':'] + value);
        assert(join_fields(ds, seq![param, value]) == ds + seq![':'] + (param + seq![':'] + value));
        assert("SET_PARAM:"@ =~= head + seq![':']);
        assert(":"@ =~= seq![':']);
    }
    lemma_digits_plain(slot as nat);
    assert(plain_field(head));
    lemma_fields_split(head, fields);
    assert(split(t, ':') =~= seq![head, ds, param, value]);
    lemma_parse_formatted(slot as nat, usize::MAX as nat);
    assert(t[0] == 'S' && t[1] == 'E' && t[2] == 'T');
    lemma_char_differs(t, "LIST_MIDI"@, 0);
    lemma_char_differs(t, "LIST_AUDIO"@, 0);
    lemma_char_differs(t, "LIST_HOSTS"@, 0);
    lemma_char_differs(t, "SELECT_HOST:"@, 2);
    lemma_char_differs(t, "GET_KIT"@, 0);
    lemma_char_differs(t, "GET_SCHEMA:"@, 0);
    lemma_char_differs(t, "LIST_MAPPING_PRESETS"@, 0);
    lemma_char_differs(t, "LOAD_MAPPING_PRESET:"@, 0);
    lemma_char_differs(t, "GET_MAPPING"@, 0);
    lemma_char_differs(t, "UPDATE_MAPPING:"@, 0);
    lemma_char_differs(t, "LOAD_SOUND_PRESET:"@, 0);
    lemma_char_differs(t, "LIST_KITS"@, 0);
    lemma_char_differs(t, "SAVE_KIT_AS:"@, 1);
    lemma_char_differs(t, "LOAD_KIT:"@, 0);
    assert(t.subrange(0, 10) =~= "SET_PARAM:"@);
}

/// A well-formed `SET_MOD:<slot>:<param>:<source>:<depth>` line, whose
/// fields hold no `:`, decodes to exactly its slot, parameter, source (by
/// name) and depth text.
pub proof fn lemma_set_mod_line(slot: usize, param: Seq<char>, source: Seq<char>, depth: Seq<char>)
    requires
        plain_field(param),
        plain_field(source),
        plain_field(depth),
    ensures
        spec_parse_command(set_mod_line(slot as nat, param, source, depth)) == (CommandView::SetMod {
            slot: slot as nat,
            param,
            source: spec_mod_source(source),
            depth,
        }),
{
    reveal_strlit("LIST_MIDI");
    reveal_strlit("LIST_AUDIO");
    reveal_strlit("LIST_HOSTS");
    reveal_strlit("SELECT_HOST:");
    reveal_strlit("GET_KIT");
    reveal_strlit("GET_SCHEMA:");
    reveal_strlit("LIST_MAPPING_PRESETS");
    reveal_strlit("LOAD_MAPPING_PRESET:");
    reveal_strlit("GET_MAPPING");
    reveal_strlit("UPDATE_MAPPING:");
    reveal_strlit("LOAD_SOUND_PRESET:");
    reveal_strlit("LIST_KITS");
    reveal_strlit("SAVE_KIT_AS:");
    reveal_strlit("LOAD_KIT:");
    reveal_strlit("SET_PARAM:");
    reveal_strlit("SET_PAN:");
    reveal_strlit("SET_DIVISION:");
    reveal_strlit("CLEAR_DIVISION:");
    reveal_strlit("SET_MOD:");
    reveal_strlit("SET_MOD");
    reveal_strlit(":");
    let ds = decimal_digits(slot as nat);
    let t = set_mod_line(slot as nat, param, source, depth);
    let head = "SET_MOD"@;
    let fields = seq![ds, param, source, depth];
    assert(t =~= join_fields(head, fields)) by {
        assert(fields.drop_first() =~= seq![param, source, depth]);
        assert(seq![param, source, depth].drop_first() =~= seq![source, depth]);
        assert(seq![source, depth].drop_first() =~= seq![depth]);
        assert(seq![depth].drop_first() =~= Seq::<Seq<char>>::empty());
        assert(join_fields(depth, Seq::<Seq<char>>::empty()) == depth);
        assert(join_fields(source, seq![depth]) == source + seq![':'] + depth);
        assert(join_fields(param, seq![source, depth]) == param + seq![':'] + (source + seq![':'] + depth));
        assert(join_fields(ds, seq![param, source, depth]) == ds + seq![':'] + (param + seq![':'] + (
        source + seq![':'] + depth)));
        assert("SET_MOD:"@ =~= head + seq![':']);
        assert(":"@ =~= seq![':']);
    }
    lemma_digits_plain(slot as nat);
    assert(plain_field(head));
    lemma_fields_split(head, fields);
    assert(split(t, ':') =~= seq![head, ds, param, source, depth]);
    lemma_parse_formatted(slot as nat, usize::MAX as nat);
    assert(t[0] == 'S' && t[1] == 'E' && t[2] == 'T' && t[4] == 'M');
    lemma_char_differs(t, "LIST_MIDI"@, 0);
    lemma_char_differs(t, "LIST_AUDIO"@, 0);
    lemma_char_differs(t, "LIST_HOSTS"@, 0);
    lemma_char_differs(t, "SELECT_HOST:"@, 2);
    lemma_char_differs(t, "GET_KIT"@, 0);
    lemma_char_differs(t, "GET_SCHEMA:"@, 0);
    lemma_char_differs(t, "LIST_MAPPING_PRESETS"@, 0);
    lemma_char_differs(t, "LOAD_MAPPING_PRESET:"@, 0);
    lemma_char_differs(t, "GET_MAPPING"@, 0);
    lemma_char_differs(t, "UPDATE_MAPPING:"@, 0);
    lemma_char_differs(t, "LOAD_SOUND_PRESET:"@, 0);
    lemma_char_differs(t, "LIST_KITS"@, 0);
    lemma_char_differs(t, "SAVE_KIT_AS:"@, 1);
    lemma_char_differs(t, "LOAD_KIT:"@, 0);
    lemma_char_differs(t, "SET_PARAM:"@, 4);
    lemma_char_differs(t, "SET_PAN:"@, 4);
    lemma_char_differs(t, "SET_DIVISION:"@, 4);
    lemma_char_differs(t, "CLEAR_DIVISION:"@, 0);
    assert(t.subrange(0, 8) =~= "SET_MOD:"@);
}

/// A well-formed `SET_LFO:<slot>:<index>:<freq>` line, whose rate holds no
/// `:`, decodes to exactly its slot, LFO index and rate text: the edit goes
/// to the LFO the line names.
pub proof fn lemma_set_lfo_line(slot: usize, index: usize, freq: Seq<char>)
    requires
        plain_field(freq),
    ensures
        spec_parse_command(set_lfo_line(slot as nat, index as nat, freq)) == (CommandView::SetLfo {
            slot: slot as nat,
            index: index as nat,
            freq,
        }),
{
    reveal_strlit("LIST_MIDI");
    reveal_strlit("LIST_AUDIO");
    reveal_strlit("LIST_HOSTS");
    reveal_strlit("SELECT_HOST:");
    reveal_strlit("GET_KIT");
    reveal_strlit("GET_SCHEMA:");
    reveal_strlit("LIST_MAPPING_PRESETS");
    reveal_strlit("LOAD_MAPPING_PRESET:");
    reveal_strlit("GET_MAPPING");
    reveal_strlit("UPDATE_MAPPING:");
    reveal_strlit("LOAD_SOUND_PRESET:");
    reveal_strlit("LIST_KITS");
    reveal_strlit("SAVE_KIT_AS:");
    reveal_strlit("LOAD_KIT:");
    reveal_strlit("SET_PARAM:");
    reveal_strlit("SET_PAN:");
    reveal_strlit("SET_DIVISION:");
    reveal_strlit("CLEAR_DIVISION:");
    reveal_strlit("SET_MOD:");
    reveal_strlit("SET_LFO:");
    reveal_strlit("SET_LFO");
    reveal_strlit(":");
    let ds = decimal_digits(slot as nat);
    let di = decimal_digits(index as nat);
    let t = set_lfo_line(slot as nat, index as nat, freq);
    let head = "SET_LFO"@;
    let fields = seq![ds, di, freq];
    assert(t =~= join_fields(head, fields)) by {
        assert(fields.drop_first() =~= seq![di, freq]);
        assert(seq![di, freq].drop_first() =~= seq![freq]);
        assert(seq![freq].drop_first() =~= Seq::<Seq<char>>::empty());
        assert(join_fields(freq, Seq::<Seq<char>>::empty()) == freq);
        assert(join_fields(di, seq![freq]) == di + seq![':'] + freq);
        assert(join_fields(ds, seq![di, freq]) == ds + seq![':'] + (di + seq![':'] + freq));
        assert("SET_LFO:"@ =~= head + seq![':']);
        assert(":"@ =~= seq![':']);
    }
    lemma_digits_plain(slot as nat);
    lemma_digits_plain(index as nat);
    assert(plain_field(head));
    lemma_fields_split(head, fields);
    assert(split(t, ':') =~= seq![head, ds, di, freq]);
    lemma_parse_formatted(slot as nat, usize::MAX as nat);
    lemma_parse_formatted(index as nat, usize::MAX as nat);
    assert(t[0] == 'S' && t[1] == 'E' && t[2] == 'T' && t[4] == 'L');
    lemma_char_differs(t, "LIST_MIDI"@, 0);
    lemma_char_differs(t, "LIST_AUDIO"@, 0);
    lemma_char_differs(t, "LIST_HOSTS"@, 0);
    lemma_char_differs(t, "SELECT_HOST:"@, 2);
    lemma_char_differs(t, "GET_KIT"@, 0);
    lemma_char_differs(t, "GET_SCHEMA:"@, 0);
    lemma_char_differs(t, "LIST_MAPPING_PRESETS"@, 0);
    lemma_char_differs(t, "LOAD_MAPPING_PRESET:"@, 0);
    lemma_char_differs(t, "GET_MAPPING"@, 0);
    lemma_char_differs(t, "UPDATE_MAPPING:"@, 0);
    lemma_char_differs(t, "LOAD_SOUND_PRESET:"@, 0);
    lemma_char_differs(t, "LIST_KITS"@, 0);
    lemma_char_differs(t, "SAVE_KIT_AS:"@, 1);
    lemma_char_differs(t, "LOAD_KIT:"@, 0);
    lemma_char_differs(t, "SET_PARAM:"@, 4);
    lemma_char_differs(t, "SET_PAN:"@, 4);
    lemma_char_differs(t, "SET_DIVISION:"@, 4);
    lemma_char_differs(t, "CLEAR_DIVISION:"@, 0);
    lemma_char_differs(t, "SET_MOD:"@, 4);
    assert(t.subrange(0, 8) =~= "SET_LFO:"@);
}

} // verus!
