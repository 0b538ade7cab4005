use vstd::prelude::*;

use global_hotkey::hotkey::HotKey;
use global_hotkey::GlobalHotKeyManager;

use crate::hotkeys::{hotkey_parse, HotkeyCall};

verus! {

#[verifier::external_type_specification]
#[verifier::external_body]
pub struct ExHotKey(global_hotkey::hotkey::HotKey);

#[verifier::external_type_specification]
#[verifier::external_body]
pub struct ExGlobalHotKeyManager(global_hotkey::GlobalHotKeyManager);

/// A hotkey read from a text, with its id. Only [`parse_hotkey`] makes
/// one, so the hotkey held is always the one the parser read, and the id
/// (its view) is the one the parser gave for that text.
#[derive(Clone, Copy, Debug)]
pub struct ParsedHotkey {
    hotkey: HotKey,
    id: u32,
}

impl View for ParsedHotkey {
    type V = u32;

    closed spec fn view(&self) -> u32 {
        self.id
    }
}

impl ParsedHotkey {
    /// The hotkey's id.
    pub fn id(&self) -> (r: u32)
        ensures
            r == self@,
    {
        self.id
    }
}

/// Parses `text` with `HotKey`'s `FromStr`; the hotkey read, together with
/// its `id()`, or the error's text. Which texts are accepted, the ids and
/// the wording of the errors are only named.
#[verifier::external_body]
pub(crate) fn parse_hotkey(text: &str) -> (r: Result<ParsedHotkey, String>)
    ensures
        match r {
            Ok(k) => hotkey_parse(text@) == Ok::<u32, Seq<char>>(k@),
            Err(e) => hotkey_parse(text@) == Err::<u32, Seq<char>>(e@),
        },
{
    match text.parse::<HotKey>() {
        Ok(hotkey) => Ok(ParsedHotkey { hotkey, id: hotkey.id() }),
        Err(e) => Err(e.to_string()),
    }
}

/// Creates the system hotkey manager with `GlobalHotKeyManager::new`.
/// Whether that succeeds depends on the desktop session: nothing is stated.
#[verifier::external_body]
pub(crate) fn new_hotkey_manager() -> (r: Result<GlobalHotKeyManager, String>) {
    GlobalHotKeyManager::new().map_err(|e| e.to_string())
}

/// Registers the hotkey of `key` with the system
/// (`GlobalHotKeyManager::register`). The outcome depends on what else
/// holds the key: nothing is stated.
#[verifier::external_body]
fn register_with_system(manager: &GlobalHotKeyManager, key: &ParsedHotkey) -> (r: Result<(), String>) {
    manager.register(key.hotkey).map_err(|e| e.to_string())
}

/// Releases the hotkey of `key` (`GlobalHotKeyManager::unregister`). The
/// outcome depends on the system: nothing is stated.
#[verifier::external_body]
fn unregister_with_system(manager: &GlobalHotKeyManager, key: &ParsedHotkey) -> (r: Result<(), String>) {
    manager.unregister(key.hotkey).map_err(|e| e.to_string())
}

/// Asks the system to register the hotkey of `key` and notes in `calls`
/// the request, with `key`'s id, and the answer.
pub(crate) fn request_register(
    manager: &GlobalHotKeyManager,
    key: &ParsedHotkey,
    calls: &mut Ghost<Seq<HotkeyCall>>,
) -> (r: Result<(), String>)
    ensures
        final(calls)@ == old(calls)@.push(HotkeyCall::Register(key@, r is Ok)),
{
    let r = register_with_system(manager, key);
    *calls = Ghost(calls@.push(HotkeyCall::Register(key@, r is Ok)));
    r
}

/// Asks the system to release the hotkey of `key` and notes in `calls` the
/// request, with `key`'s id, and the answer.
pub(crate) fn request_release(
    manager: &GlobalHotKeyManager,
    key: &ParsedHotkey,
    calls: &mut Ghost<Seq<HotkeyCall>>,
) -> (r: Result<(), String>)
    ensures
        final(calls)@ == old(calls)@.push(HotkeyCall::Unregister(key@, r is Ok)),
{
    let r = unregister_with_system(manager, key);
    *calls = Ghost(calls@.push(HotkeyCall::Unregister(key@, r is Ok)));
    r
}

} // verus!
