use vstd::prelude::*;

use crate::autostart::AutostartSync;
use crate::hotkeys::{
    register_calls, registration_refused, refused_registration, release_calls, HotkeyCall,
    extends, has_prefix, hotkey_parse, lemma_extends_trans, lemma_prefix_of_concat, lemma_split_log, lemma_refused_since_earlier, refused_since,
    HotkeyManager, SystemHotkeys,
};
use crate::models::{Settings, SettingsView};
use crate::settings::{app_settings_update, validate_app_settings};
use crate::store::HistoryStore;
use crate::text::{trim, trim_str};
use crate::ui::saved_with;

verus! {

/// Name of the main shortcut in the shortcut registry.
pub const MAIN_SHORTCUT: &'static str = "main";

/// Name of the AI shortcut in the shortcut registry.
pub const AI_SHORTCUT: &'static str = "ai";

/// The shortcut bindings that settings ask for: `main` bound to the main
/// hotkey; `ai` bound to the trimmed AI hotkey when the AI feature is built
/// in and switched on, else unbound.
pub open spec fn bindings_for(old: Map<Seq<char>, u32>, s: SettingsView, ai_feature_enabled: bool) -> Map<Seq<char>, u32> {
    let with_main = old.insert("main"@, hotkey_parse(trim(s.hotkey))->Ok_0);
    if ai_feature_enabled && s.ai_enabled {
        with_main.insert("ai"@, hotkey_parse(trim(s.ai_hotkey))->Ok_0)
    } else {
        with_main.remove("ai"@)
    }
}

/// The bindings other than `main` and `ai`.
pub open spec fn other_bindings(m: Map<Seq<char>, u32>) -> Map<Seq<char>, u32> {
    m.remove("main"@).remove("ai"@)
}

/// Why applying the shortcuts of `s` can fail without the system refusing
/// anything: the main hotkey, or the AI hotkey when it is to be bound, is
/// not a hotkey.
pub open spec fn unreadable_shortcut(s: SettingsView, ai_feature_enabled: bool) -> bool {
    ||| hotkey_parse(trim(s.hotkey)) is Err
    ||| (ai_feature_enabled && s.ai_enabled && hotkey_parse(trim(s.ai_hotkey)) is Err)
}

/// Registries that agree outside `main` and `ai` agree once the bindings
/// of some settings are applied.
pub proof fn lemma_bindings_for_frame(a: Map<Seq<char>, u32>, b: Map<Seq<char>, u32>, s: SettingsView, ai_feature_enabled: bool)
    requires
        other_bindings(a) == other_bindings(b),
    ensures
        bindings_for(a, s, ai_feature_enabled) == bindings_for(b, s, ai_feature_enabled),
{
    let x = bindings_for(a, s, ai_feature_enabled);
    let y = bindings_for(b, s, ai_feature_enabled);
    assert forall|n: Seq<char>| n != "main"@ && n != "ai"@ implies (#[trigger] a.contains_key(n) == b.contains_key(n)
        && (a.contains_key(n) ==> a[n] == b[n])) by {
        assert(other_bindings(a).contains_key(n) == a.contains_key(n));
        assert(other_bindings(b).contains_key(n) == b.contains_key(n));
        if a.contains_key(n) {
            assert(other_bindings(a)[n] == a[n]);
            assert(other_bindings(b)[n] == b[n]);
        }
    }
    assert(x =~= y);
}

/// How many of the requests `added` belong to binding `main` to `idm` in
/// the registry `m`: none when it is bound already, one when that
/// registration was refused, else the registration and, when `main` had a
/// shortcut, its release.
pub open spec fn main_calls_len(m: Map<Seq<char>, u32>, idm: u32, added: Seq<HotkeyCall>) -> int {
    if m.contains_key("main"@) && m["main"@] == idm {
        0
    } else if added.len() > 0 && added[0] == HotkeyCall::Register(idm, false) {
        1
    } else if m.contains_key("main"@) {
        2
    } else {
        1
    }
}

/// The requests, answered as in `added`, of applying the shortcuts of `s`
/// to the registry `m`: none for an unreadable main hotkey; else those of
/// binding `main`, and once that is accepted those of binding `ai` (when
/// the feature is built in and on and its hotkey readable) or of
/// releasing it.
pub open spec fn apply_calls(m: Map<Seq<char>, u32>, s: SettingsView, ai_feature_enabled: bool, added: Seq<HotkeyCall>) -> bool {
    match hotkey_parse(trim(s.hotkey)) {
        Err(_) => added.len() == 0,
        Ok(idm) => {
            let k = main_calls_len(m, idm, added);
            &&& k <= added.len()
            &&& register_calls(m, "main"@, idm, added.take(k))
            &&& if registration_refused(added.take(k)) {
                added.len() == k
            } else {
                let rest = added.skip(k);
                let m2 = m.insert("main"@, idm);
                if ai_feature_enabled && s.ai_enabled {
                    match hotkey_parse(trim(s.ai_hotkey)) {
                        Err(_) => rest.len() == 0,
                        Ok(ida) => register_calls(m2, "ai"@, ida, rest),
                    }
                } else {
                    release_calls(m2, "ai"@, rest)
                }
            }
        },
    }
}

/// The registry left by applying the shortcuts of `s` to `m` with the
/// requests answered as in `added`: each binding made once the system
/// accepted it.
pub open spec fn applied_map(m: Map<Seq<char>, u32>, s: SettingsView, ai_feature_enabled: bool, added: Seq<HotkeyCall>) -> Map<Seq<char>, u32> {
    match hotkey_parse(trim(s.hotkey)) {
        Err(_) => m,
        Ok(idm) => {
            let k = main_calls_len(m, idm, added);
            if registration_refused(added.take(k)) {
                m
            } else {
                let m2 = m.insert("main"@, idm);
                if ai_feature_enabled && s.ai_enabled {
                    match hotkey_parse(trim(s.ai_hotkey)) {
                        Err(_) => m2,
                        Ok(ida) => if registration_refused(added.skip(k)) {
                            m2
                        } else {
                            m2.insert("ai"@, ida)
                        },
                    }
                } else {
                    m2.remove("ai"@)
                }
            }
        },
    }
}

/// The message for settings whose shortcuts cannot be read: the parser's
/// error for the main hotkey, else for the AI hotkey.
pub open spec fn unreadable_error(s: SettingsView) -> Seq<char> {
    match hotkey_parse(trim(s.hotkey)) {
        Err(pe) => "无效快捷键格式: "@ + pe,
        Ok(_) => match hotkey_parse(trim(s.ai_hotkey)) {
            Err(pe) => "无效快捷键格式: "@ + pe,
            Ok(_) => Seq::empty(),
        },
    }
}

/// A refused registration in `a + b` is one in `a` or in `b`.
proof fn lemma_refused_concat(a: Seq<HotkeyCall>, b: Seq<HotkeyCall>)
    ensures
        registration_refused(a + b) == (registration_refused(a) || registration_refused(b)),
{
    let c = a + b;
    if registration_refused(c) {
        let k = choose|k: int| 0 <= k < c.len() && refused_registration(#[trigger] c[k]);
        if k < a.len() {
            assert(c[k] == a[k]);
        } else {
            assert(c[k] == b[k - a.len()]);
        }
    }
    if registration_refused(a) {
        let k = choose|k: int| 0 <= k < a.len() && refused_registration(#[trigger] a[k]);
        assert(c[k] == a[k]);
    }
    if registration_refused(b) {
        let k = choose|k: int| 0 <= k < b.len() && refused_registration(#[trigger] b[k]);
        assert(c[k + a.len()] == b[k]);
    }
}

/// Registers the shortcuts of `settings`: the main one, then the AI one
/// when the feature is built in and on (else the AI shortcut is released).
/// On success the registry holds exactly the bindings asked for; other
/// bindings are never touched; a failure means an unreadable shortcut or a
/// request the system refused.
pub fn apply_hotkey_settings(
    manager: &mut HotkeyManager,
    system: &SystemHotkeys,
    settings: &Settings,
    ai_feature_enabled: bool,
) -> (r: Result<(), String>)
    requires
        old(manager).wf(),
    ensures
        final(manager).wf(),
        extends(final(manager).calls(), old(manager).calls()),
        other_bindings(final(manager)@) == other_bindings(old(manager)@),
        r is Ok ==> final(manager)@ == bindings_for(old(manager)@, settings@, ai_feature_enabled),
        r is Err ==> unreadable_shortcut(settings@, ai_feature_enabled)
            || refused_since(final(manager).calls(), old(manager).calls().len() as int),
        hotkey_parse(trim(settings.hotkey@)) matches Err(e) ==> (r matches Err(m) && m@ == "无效快捷键格式: "@ + e)
            && final(manager)@ == old(manager)@ && final(manager).calls() == old(manager).calls(),
        r matches Err(m) ==> has_prefix(m@, "无效快捷键格式: "@) || has_prefix(m@, "注册冲突或失败: "@),
        apply_calls(old(manager)@, settings@, ai_feature_enabled, final(manager).calls().skip(old(manager).calls().len() as int)),
        final(manager)@ == applied_map(old(manager)@, settings@, ai_feature_enabled,
            final(manager).calls().skip(old(manager).calls().len() as int)),
        (r is Ok) == (!unreadable_shortcut(settings@, ai_feature_enabled)
            && !registration_refused(final(manager).calls().skip(old(manager).calls().len() as int))),
        r matches Err(m) ==> if registration_refused(final(manager).calls().skip(old(manager).calls().len() as int)) {
            has_prefix(m@, "注册冲突或失败: "@)
        } else {
            m@ == unreadable_error(settings@)
        },
{
    proof {
        reveal_strlit("main");
        reveal_strlit("ai");
        assert(manager.calls().skip(manager.calls().len() as int) =~= Seq::<HotkeyCall>::empty());
    }
    let ghost start = manager.calls();
    let ghost start_map = manager@;
    match manager.register(system, MAIN_SHORTCUT, settings.hotkey.as_str()) {
        Ok(()) => {},
        Err(e) => {
            proof {
                if let Err(pe) = hotkey_parse(trim(settings.hotkey@)) {
                    lemma_prefix_of_concat("无效快捷键格式: "@, pe);
                }
                if hotkey_parse(trim(settings.hotkey@)) is Ok {
                    let c = manager.calls();
                    let added = c.skip(start.len() as int);
                    assert(added.len() == 1);
                    assert(added[0] == c[start.len() as int]);
                    assert(crate::hotkeys::call_refused(c[start.len() as int]));
                    assert(added.take(1) =~= added);
                }
                assert(other_bindings(manager@) =~= other_bindings(start_map));
            }
            return Err(e);
        },
    }
    let ghost mid = manager.calls();
    let ghost mid_map = manager@;
    proof {
        assert(other_bindings(mid_map) =~= other_bindings(start_map));
    }
    let r = if ai_feature_enabled && settings.ai_enabled {
        let ai = trim_str(settings.ai_hotkey.as_str());
        proof {
            crate::text::lemma_trim_idempotent(settings.ai_hotkey@);
        }
        let r = manager.register(system, AI_SHORTCUT, ai.as_str());
        proof {
            if let Err(pe) = hotkey_parse(trim(ai@)) {
                lemma_prefix_of_concat("无效快捷键格式: "@, pe);
            }
            if r is Err && hotkey_parse(trim(settings.ai_hotkey@)) is Ok {
                let c = manager.calls();
                let added = c.skip(mid.len() as int);
                assert(added.len() == 1);
                assert(added[0] == c[mid.len() as int]);
                assert(crate::hotkeys::call_refused(c[mid.len() as int]));
                lemma_refused_since_earlier(manager.calls(), start.len() as int, mid.len() as int);
            }
        }
        r
    } else {
        manager.unregister(system, AI_SHORTCUT)
    };
    proof {
        lemma_extends_trans(manager.calls(), mid, start);
        assert(other_bindings(manager@) =~= other_bindings(mid_map));
        let c = manager.calls();
        let added1 = mid.skip(start.len() as int);
        let rest = c.skip(mid.len() as int);
        let added = c.skip(start.len() as int);
        assert(added =~= added1 + rest) by {
            assert(c.take(mid.len() as int) =~= mid);
        }
        assert(added.take(added1.len() as int) =~= added1);
        assert(added.skip(added1.len() as int) =~= rest);
        lemma_refused_concat(added1, rest);
        if added1.len() > 0 {
            assert(added[0] == added1[0]);
        }
        crate::text::lemma_trim_idempotent(settings.ai_hotkey@);
        if !(ai_feature_enabled && settings.ai_enabled) && registration_refused(rest) {
            let k = choose|k: int| 0 <= k < rest.len() && refused_registration(#[trigger] rest[k]);
            assert(rest[k] == rest[0]);
        }
    }
    r
}

/// Applying the shortcuts of `s` succeeded with the requests `added`: they
/// are readable and no registration was refused.
pub open spec fn applied_ok(s: SettingsView, ai_feature_enabled: bool, added: Seq<HotkeyCall>) -> bool {
    !unreadable_shortcut(s, ai_feature_enabled) && !registration_refused(added)
}

/// `added` holds, before position `j`, the requests of applying the
/// shortcuts of `s` to `m`, and from `j` on those of applying `previous` to
/// the registry that attempt left.
pub open spec fn apply_then_restore(
    m: Map<Seq<char>, u32>,
    s: SettingsView,
    previous: SettingsView,
    ai_feature_enabled: bool,
    added: Seq<HotkeyCall>,
    j: int,
) -> bool {
    &&& 0 <= j <= added.len()
    &&& apply_calls(m, s, ai_feature_enabled, added.take(j))
    &&& apply_calls(applied_map(m, s, ai_feature_enabled, added.take(j)), previous, ai_feature_enabled, added.skip(j))
}

/// What a rollback to `previous` leaves: from a registry `start_map` (log
/// `start`) an attempt led to `mid_map` (log `mid`) without touching other
/// bindings, and applying `previous` then gave `end_map` (log `end`),
/// successfully when `restored`.
proof fn rollback_outcome(
    start: Seq<crate::hotkeys::HotkeyCall>,
    start_map: Map<Seq<char>, u32>,
    mid: Seq<crate::hotkeys::HotkeyCall>,
    mid_map: Map<Seq<char>, u32>,
    end: Seq<crate::hotkeys::HotkeyCall>,
    end_map: Map<Seq<char>, u32>,
    previous: SettingsView,
    ai_feature_enabled: bool,
    restored: bool,
)
    requires
        extends(mid, start),
        extends(end, mid),
        other_bindings(mid_map) == other_bindings(start_map),
        restored ==> end_map == bindings_for(mid_map, previous, ai_feature_enabled),
        !restored ==> unreadable_shortcut(previous, ai_feature_enabled) || refused_since(end, mid.len() as int),
    ensures
        extends(end, start),
        end_map == bindings_for(start_map, previous, ai_feature_enabled)
            || unreadable_shortcut(previous, ai_feature_enabled)
            || refused_since(end, start.len() as int),
{
    lemma_extends_trans(end, mid, start);
    lemma_bindings_for_frame(mid_map, start_map, previous, ai_feature_enabled);
    if !restored && refused_since(end, mid.len() as int) {
        lemma_refused_since_earlier(end, start.len() as int, mid.len() as int);
    }
}

/// Saves settings from the main settings page at `now`: they are checked
/// and normalised, the shortcuts and start at login are applied, then the
/// settings stored. When applying fails the previous shortcuts are put back
/// and the error returned; the store changes only on success.
pub fn save_app_settings_logic<F: Fn(bool) -> Result<(), String>>(
    manager: &mut HotkeyManager,
    system: &SystemHotkeys,
    store: &mut HistoryStore,
    settings: Settings,
    ai_feature_enabled: bool,
    now: i64,
    autostart: &mut AutostartSync<F>,
) -> (r: Result<(), String>)
    requires
        old(manager).wf(),
        old(store).wf(),
        forall|b: bool| old(autostart).step().requires((b,)),
    ensures
        final(manager).wf(),
        final(store).wf(),
        extends(final(manager).calls(), old(manager).calls()),
        final(autostart).step() == old(autostart).step(),
        match app_settings_update(settings@, ai_feature_enabled) {
            Err(m) => (r matches Err(e) && e@ == m) && final(store)@ == old(store)@ && final(manager)@ == old(manager)@
                && final(manager).calls() == old(manager).calls() && final(autostart).requests() == old(autostart).requests(),
            Ok(updated) => {
                &&& r is Ok ==> final(store)@ == saved_with(old(store)@, updated, now as int)
                    && final(manager)@ == bindings_for(old(manager)@, updated, ai_feature_enabled)
                &&& r is Ok ==> old(autostart).step().ensures((updated.auto_start,), Ok::<(), String>(()))
                    && final(autostart).requests() == old(autostart).requests().push(updated.auto_start)
                &&& r matches Err(e) ==> old(autostart).step().ensures((updated.auto_start,), Err::<(), String>(e))
                    || has_prefix(e@, "无效快捷键格式: "@)
                    || has_prefix(e@, "注册冲突或失败: "@)
                &&& r is Err ==> final(store)@ == old(store)@ && (
                    final(manager)@ == bindings_for(old(manager)@, old(store)@.settings, ai_feature_enabled)
                    || unreadable_shortcut(old(store)@.settings, ai_feature_enabled)
                    || refused_since(final(manager).calls(), old(manager).calls().len() as int))
                &&& r is Ok ==> apply_calls(old(manager)@, updated, ai_feature_enabled, final(manager).calls().skip(old(manager).calls().len() as int))
                    && applied_ok(updated, ai_feature_enabled, final(manager).calls().skip(old(manager).calls().len() as int))
                &&& r matches Err(e) ==> exists|j: int| #[trigger] apply_then_restore(
                    old(manager)@,
                    updated,
                    old(store)@.settings,
                    ai_feature_enabled,
                    final(manager).calls().skip(old(manager).calls().len() as int),
                    j,
                ) && ({
                    let added = final(manager).calls().skip(old(manager).calls().len() as int);
                    let first = added.take(j);
                    &&& final(manager)@ == applied_map(applied_map(old(manager)@, updated, ai_feature_enabled, first),
                        old(store)@.settings, ai_feature_enabled, added.skip(j))
                    &&& if applied_ok(updated, ai_feature_enabled, first) {
                        old(autostart).step().ensures((updated.auto_start,), Err::<(), String>(e))
                            && final(autostart).requests() == old(autostart).requests().push(updated.auto_start)
                    } else if registration_refused(first) {
                        has_prefix(e@, "注册冲突或失败: "@) && final(autostart).requests() == old(autostart).requests()
                    } else {
                        e@ == unreadable_error(updated) && final(autostart).requests() == old(autostart).requests()
                    }
                })
            },
        },
{
    proof {
        assert(manager.calls().take(manager.calls().len() as int) =~= manager.calls());
    }
    let updated = match validate_app_settings(settings, ai_feature_enabled) {
        Ok(s) => s,
        Err(e) => {
            return Err(e);
        },
    };
    let previous = store.get_settings();
    let ghost start = manager.calls();
    let ghost start_map = manager@;
    match apply_hotkey_settings(manager, system, &updated, ai_feature_enabled) {
        Ok(()) => {},
        Err(e) => {
            let ghost mid = manager.calls();
            let ghost mid_map = manager@;
            let restored = apply_hotkey_settings(manager, system, &previous, ai_feature_enabled);
            proof {
                rollback_outcome(start, start_map, mid, mid_map, manager.calls(), manager@, previous@, ai_feature_enabled, restored is Ok);
                lemma_split_log(manager.calls(), start, mid);
                let j = mid.len() - start.len();
                assert(apply_then_restore(start_map, updated@, previous@, ai_feature_enabled, manager.calls().skip(start.len() as int), j));
            }
            return Err(e);
        },
    }
    let synced = autostart.sync(updated.auto_start);
    match synced {
        Ok(u) => {
            assert(synced == Ok::<(), String>(u) && u == ());
        },
        Err(e) => {
            let ghost mid = manager.calls();
            let ghost mid_map = manager@;
            let restored = apply_hotkey_settings(manager, system, &previous, ai_feature_enabled);
            proof {
                rollback_outcome(start, start_map, mid, mid_map, manager.calls(), manager@, previous@, ai_feature_enabled, restored is Ok);
                lemma_split_log(manager.calls(), start, mid);
                let j = mid.len() - start.len();
                assert(apply_then_restore(start_map, updated@, previous@, ai_feature_enabled, manager.calls().skip(start.len() as int), j));
            }
            return Err(e);
        },
    }
    store.save_settings(&updated, now);
    Ok(())
}

} // verus!
