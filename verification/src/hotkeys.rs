use vstd::prelude::*;

use global_hotkey::GlobalHotKeyManager;

use crate::image::append_chars;
use crate::shortcut::{new_hotkey_manager, parse_hotkey, request_register, request_release, ParsedHotkey};
use crate::text::{chars_of, string_from_chars, trim, trim_str};

verus! {

/// What `global_hotkey` makes of `text` as a hotkey (`str::parse::<HotKey>`):
/// the id of the hotkey it reads, or the text of its parse error. The id
/// is `modifier bits << 16 | key code`, so equal ids mean equal hotkeys.
pub uninterp spec fn hotkey_parse(text: Seq<char>) -> Result<u32, Seq<char>>;

/// `p` is a prefix of `s`.
pub open spec fn has_prefix(s: Seq<char>, p: Seq<char>) -> bool {
    p.len() <= s.len() && s.take(p.len() as int) == p
}

/// A text begins with what was put in front of it.
pub(crate) proof fn lemma_prefix_of_concat(p: Seq<char>, e: Seq<char>)
    ensures
        has_prefix(p + e, p),
{
    assert((p + e).take(p.len() as int) =~= p);
}

/// The hotkey id a main-hotkey setting asks for, or why it is refused:
/// the text trimmed, not empty, and accepted by the hotkey parser.
pub open spec fn main_hotkey_target(value: Seq<char>) -> Result<u32, Seq<char>> {
    let v = trim(value);
    if v.len() == 0 {
        Err("主快捷键不能为空"@)
    } else {
        match hotkey_parse(v) {
            Ok(id) => Ok(id),
            Err(e) => Err("无效快捷键 "@ + v + "："@ + e),
        }
    }
}

pub(crate) fn message3(a: &str, b: &str, c: &str) -> (r: String)
    ensures
        r@ == a@ + b@ + c@,
{
    let mut v = chars_of(a);
    append_chars(&mut v, &chars_of(b));
    append_chars(&mut v, &chars_of(c));
    string_from_chars(v.as_slice())
}

/// One request to the system's hotkey service: register or release the
/// hotkey with the given id, and whether the service accepted it.
#[derive(Clone, Copy, Debug, PartialEq, Eq, Structural)]
pub enum HotkeyCall {
    Register(u32, bool),
    Unregister(u32, bool),
}

/// The service refused the request.
pub open spec fn call_refused(c: HotkeyCall) -> bool {
    match c {
        HotkeyCall::Register(_, ok) => !ok,
        HotkeyCall::Unregister(_, ok) => !ok,
    }
}

/// A request made at position `from` of `calls` or later was refused.
pub open spec fn refused_since(calls: Seq<HotkeyCall>, from: int) -> bool {
    exists|k: int| from <= k < calls.len() && call_refused(#[trigger] calls[k])
}

/// `calls` continues `before`: the earlier requests are kept.
pub open spec fn extends(calls: Seq<HotkeyCall>, before: Seq<HotkeyCall>) -> bool {
    before.len() <= calls.len() && calls.take(before.len() as int) == before
}

/// Continuing a continuation of `a` continues `a`.
pub(crate) proof fn lemma_extends_trans(c: Seq<HotkeyCall>, b: Seq<HotkeyCall>, a: Seq<HotkeyCall>)
    requires
        extends(c, b),
        extends(b, a),
    ensures
        extends(c, a),
{
    assert(c.take(a.len() as int) =~= b.take(a.len() as int));
}

/// A refusal at or after `k` is one at or after any `j <= k`.
pub(crate) proof fn lemma_refused_since_earlier(calls: Seq<HotkeyCall>, j: int, k: int)
    requires
        j <= k,
        refused_since(calls, k),
    ensures
        refused_since(calls, j),
{
    let i = choose|i: int| k <= i < calls.len() && call_refused(#[trigger] calls[i]);
    assert(call_refused(calls[i]));
}

/// Releasing the registered hotkey `active` (if any), answered `ok`.
pub open spec fn release_of(active: Option<u32>, ok: bool) -> Seq<HotkeyCall> {
    match active {
        Some(o) => seq![HotkeyCall::Unregister(o, ok)],
        None => Seq::empty(),
    }
}

/// The requests of a main-hotkey change from `active` to `id` that the
/// service refused at the registration of `id`: the old hotkey released,
/// the new one refused, the old one registered again (whatever the answer).
pub open spec fn refused_change(active: Option<u32>, id: u32, added: Seq<HotkeyCall>) -> bool {
    match active {
        Some(o) => added.len() == 3 && added[0] == HotkeyCall::Unregister(o, true) && added[1] == HotkeyCall::Register(id, false)
            && (added[2] matches HotkeyCall::Register(p, _) && p == o),
        None => added == seq![HotkeyCall::Register(id, false)],
    }
}

/// A log split where an earlier log `mid` ended.
pub(crate) proof fn lemma_split_log(c: Seq<HotkeyCall>, start: Seq<HotkeyCall>, mid: Seq<HotkeyCall>)
    requires
        extends(mid, start),
        extends(c, mid),
    ensures
        c.skip(start.len() as int).take(mid.len() - start.len()) == mid.skip(start.len() as int),
        c.skip(start.len() as int).skip(mid.len() - start.len()) == c.skip(mid.len() as int),
{
    assert(c.skip(start.len() as int).take(mid.len() - start.len()) =~= mid.skip(start.len() as int)) by {
        assert(c.take(mid.len() as int) =~= mid);
        assert forall|i: int| 0 <= i < mid.len() - start.len() implies c.skip(start.len() as int).take(mid.len() - start.len())[i] == mid.skip(start.len() as int)[i] by {
            assert(c[start.len() + i] == c.take(mid.len() as int)[start.len() + i]);
        }
    }
    assert(c.skip(start.len() as int).skip(mid.len() - start.len()) =~= c.skip(mid.len() as int));
}

/// What making `value` the main hotkey does, from the hotkey `before` to
/// `after`, with the requests `added` and success `ok`: a blank or
/// unreadable value or the hotkey already held asks nothing; otherwise the
/// old hotkey is released and the new one registered (success), or the
/// release is refused, or the registration is refused and the old hotkey
/// registered again (failure, the old hotkey kept).
pub open spec fn update_effect(before: Option<u32>, after: Option<u32>, value: Seq<char>, added: Seq<HotkeyCall>, ok: bool) -> bool {
    match main_hotkey_target(value) {
        Err(_) => !ok && after == before && added.len() == 0,
        Ok(id) => if before == Some(id) {
            ok && after == before && added.len() == 0
        } else if ok {
            after == Some(id) && added == release_of(before, true) + seq![HotkeyCall::Register(id, true)]
        } else {
            after == before && (
                (before matches Some(o) && added == seq![HotkeyCall::Unregister(o, false)])
                || refused_change(before, id, added))
        },
    }
}

/// A change to `value` from the hotkey `before` that failed with message
/// `e`, its requests being the first `j` of `added`: the hotkey stays.
pub open spec fn failed_update(before: Option<u32>, value: Seq<char>, added: Seq<HotkeyCall>, j: int, e: Seq<char>) -> bool {
    &&& 0 <= j <= added.len()
    &&& update_effect(before, before, value, added.take(j), false)
    &&& update_error(before, value, added.take(j), e)
}

/// `added` holds, before position `j`, the requests of a successful change
/// from `before` to the hotkey `value` asks for, and from `j` on those of
/// changing back to `previous`, which left the hotkey `after`.
pub open spec fn update_then_restore(
    before: Option<u32>,
    after: Option<u32>,
    value: Seq<char>,
    previous: Seq<char>,
    added: Seq<HotkeyCall>,
    j: int,
) -> bool {
    &&& 0 <= j <= added.len()
    &&& main_hotkey_target(value) is Ok
    &&& update_effect(before, Some(main_hotkey_target(value)->Ok_0), value, added.take(j), true)
    &&& (update_effect(Some(main_hotkey_target(value)->Ok_0), after, previous, added.skip(j), true)
        || update_effect(Some(main_hotkey_target(value)->Ok_0), after, previous, added.skip(j), false))
}

/// The message of a failed change to `value` from the hotkey `before`,
/// with the requests `added`: why the value is refused; or, after a refused
/// release, a text starting "无法注销旧快捷键："; or, after a refused
/// registration, one starting "注册快捷键 <value> 失败：".
pub open spec fn update_error(before: Option<u32>, value: Seq<char>, added: Seq<HotkeyCall>, e: Seq<char>) -> bool {
    match main_hotkey_target(value) {
        Err(m) => e == m,
        Ok(_) => if before matches Some(o) && added == seq![HotkeyCall::Unregister(o, false)] {
            has_prefix(e, "无法注销旧快捷键："@)
        } else {
            has_prefix(e, "注册快捷键 "@ + trim(value) + " 失败："@)
        },
    }
}

/// The main global hotkey of the list window and the system registration
/// that holds it, with the log of the requests made to the system.
pub struct HotkeyRuntime {
    manager: GlobalHotKeyManager,
    current: Option<ParsedHotkey>,
    calls: Ghost<Seq<HotkeyCall>>,
}

impl HotkeyRuntime {
    /// The id of the registered main hotkey, if one is registered.
    pub closed spec fn active(&self) -> Option<u32> {
        match self.current {
            Some(key) => Some(key@),
            None => None,
        }
    }

    /// The requests made to the system so far, in order.
    pub closed spec fn calls(&self) -> Seq<HotkeyCall> {
        self.calls@
    }

    /// A runtime with no hotkey registered; fails when the system hotkey
    /// manager cannot be created.
    pub fn new() -> (r: Result<HotkeyRuntime, String>)
        ensures
            r matches Ok(rt) ==> rt.active() is None && rt.calls().len() == 0,
    {
        match new_hotkey_manager() {
            Ok(manager) => Ok(HotkeyRuntime { manager, current: None, calls: Ghost(Seq::empty()) }),
            Err(e) => Err(e),
        }
    }

    /// The id that hotkey events are matched against: that of the
    /// registered hotkey, 0 while none is.
    pub fn active_id(&self) -> (r: u32)
        ensures
            r == match self.active() {
                Some(id) => id,
                None => 0,
            },
    {
        match self.current {
            Some(key) => key.id(),
            None => 0,
        }
    }

    /// Makes `value` the main hotkey. A blank or unreadable value is
    /// refused without asking the system; the registered hotkey is kept when
    /// it is the same one. Otherwise the old hotkey is released and then the
    /// new one registered. When the system refuses the release, the old
    /// hotkey stays; when it refuses the new one, the old one is registered
    /// again and stays the active one; either way the error is reported.
    pub fn update(&mut self, value: &str) -> (r: Result<(), String>)
        ensures
            extends(final(self).calls(), old(self).calls()),
            match main_hotkey_target(value@) {
                Err(m) => (r matches Err(e) && e@ == m) && final(self).active() == old(self).active()
                    && final(self).calls() == old(self).calls(),
                Ok(id) => if old(self).active() == Some(id) {
                    r is Ok && final(self).active() == old(self).active() && final(self).calls() == old(self).calls()
                } else {
                    let added = final(self).calls().skip(old(self).calls().len() as int);
                    &&& r is Ok ==> final(self).active() == Some(id)
                        && added == release_of(old(self).active(), true) + seq![HotkeyCall::Register(id, true)]
                    &&& r matches Err(e) ==> final(self).active() == old(self).active() && refused_since(final(self).calls(), old(self).calls().len() as int) && (
                        (old(self).active() matches Some(o) && added == seq![HotkeyCall::Unregister(o, false)]
                            && has_prefix(e@, "无法注销旧快捷键："@))
                        || (refused_change(old(self).active(), id, added)
                            && has_prefix(e@, "注册快捷键 "@ + trim(value@) + " 失败："@)))
                },
            },
            update_effect(old(self).active(), final(self).active(), value@,
                final(self).calls().skip(old(self).calls().len() as int), r is Ok),
            r matches Err(e) ==> update_error(old(self).active(), value@,
                final(self).calls().skip(old(self).calls().len() as int), e@),
    {
        let ghost start = self.calls@;
        assert(start.take(start.len() as int) =~= start);
        assert(start.skip(start.len() as int) =~= Seq::<HotkeyCall>::empty());
        let v = trim_str(value);
        if v.as_str().is_empty() {
            return Err(String::from_str("主快捷键不能为空"));
        }
        let next = match parse_hotkey(v.as_str()) {
            Ok(p) => p,
            Err(e) => {
                let mut msg = chars_of("无效快捷键 ");
                append_chars(&mut msg, &chars_of(v.as_str()));
                append_chars(&mut msg, &chars_of("："));
                append_chars(&mut msg, &chars_of(e.as_str()));
                return Err(string_from_chars(msg.as_slice()));
            },
        };
        let next_id = next.id();
        let previous = self.current;
        if let Some(p) = previous {
            if p.id() == next_id {
                return Ok(());
            }
        }
        match previous {
            Some(p) => {
                let released = request_release(&self.manager, &p, &mut self.calls);
                match released {
                    Ok(()) => {},
                    Err(e) => {
                        let msg = message3("无法注销旧快捷键：", e.as_str(), "");
                        proof {
                            reveal_strlit("无法注销旧快捷键：");
                            reveal_strlit("");
                            assert(msg@.take("无法注销旧快捷键："@.len() as int) =~= "无法注销旧快捷键："@);
                            assert(self.calls@.skip(start.len() as int) =~= seq![HotkeyCall::Unregister(p@, false)]);
                            assert(self.calls@.take(start.len() as int) =~= start);
                            assert(call_refused(self.calls@[start.len() as int]));
                        }
                        return Err(msg);
                    },
                }
            },
            None => {},
        }
        let registered = request_register(&self.manager, &next, &mut self.calls);
        match registered {
            Ok(()) => {},
            Err(e) => {
                let ghost refused_at = self.calls@.len() - 1;
                match previous {
                    Some(p) => {
                        let _ = request_register(&self.manager, &p, &mut self.calls);
                    },
                    None => {},
                }
                let head = message3("注册快捷键 ", v.as_str(), " 失败：");
                let msg = message3(head.as_str(), e.as_str(), "");
                proof {
                    reveal_strlit("");
                    assert(msg@.take(head@.len() as int) =~= head@);
                    let added = self.calls@.skip(start.len() as int);
                    assert(self.calls@.take(start.len() as int) =~= start);
                    assert(call_refused(self.calls@[refused_at]));
                    match previous {
                        Some(p) => {
                            assert(added[0] == HotkeyCall::Unregister(p@, true));
                            assert(added[1] == HotkeyCall::Register(next_id, false));
                        },
                        None => {
                            assert(added =~= seq![HotkeyCall::Register(next_id, false)]);
                        },
                    }
                }
                return Err(msg);
            },
        }
        self.current = Some(next);
        proof {
            assert(self.calls@.take(start.len() as int) =~= start);
            assert(self.calls@.skip(start.len() as int) =~= release_of(old(self).active(), true) + seq![HotkeyCall::Register(next_id, true)]);
        }
        Ok(())
    }
}

/// The system's global hotkey service.
pub struct SystemHotkeys {
    manager: GlobalHotKeyManager,
}

impl SystemHotkeys {
    /// Connects to the system's hotkey service; fails when there is none.
    pub fn new() -> (r: Result<SystemHotkeys, String>) {
        match new_hotkey_manager() {
            Ok(manager) => Ok(SystemHotkeys { manager }),
            Err(e) => Err(e),
        }
    }
}

/// A request to register that the system refused.
pub open spec fn refused_registration(c: HotkeyCall) -> bool {
    match c {
        HotkeyCall::Register(_, ok) => !ok,
        HotkeyCall::Unregister(_, _) => false,
    }
}

/// Some registration in `added` was refused.
pub open spec fn registration_refused(added: Seq<HotkeyCall>) -> bool {
    exists|k: int| 0 <= k < added.len() && refused_registration(#[trigger] added[k])
}

/// The requests of binding `name` to the shortcut `id` in a registry `m`,
/// with the answers in `added`: none when `name` already has it; else the
/// registration of `id`, and once it is accepted the release of the
/// shortcut `name` had.
pub open spec fn register_calls(m: Map<Seq<char>, u32>, name: Seq<char>, id: u32, added: Seq<HotkeyCall>) -> bool {
    if m.contains_key(name) && m[name] == id {
        added.len() == 0
    } else if added.len() == 1 && added[0] == HotkeyCall::Register(id, false) {
        true
    } else {
        &&& added.len() == (if m.contains_key(name) { 2int } else { 1int })
        &&& added[0] == HotkeyCall::Register(id, true)
        &&& m.contains_key(name) ==> (added[1] matches HotkeyCall::Unregister(o, _) && o == m[name])
    }
}

/// The requests of unbinding `name` in a registry `m`: the release of its
/// shortcut, if it has one.
pub open spec fn release_calls(m: Map<Seq<char>, u32>, name: Seq<char>, added: Seq<HotkeyCall>) -> bool {
    if m.contains_key(name) {
        added.len() == 1 && (added[0] matches HotkeyCall::Unregister(o, _) && o == m[name])
    } else {
        added.len() == 0
    }
}

/// One named shortcut of the shortcut registry.
pub struct ShortcutEntry {
    pub name: String,
    pub key: ParsedHotkey,
}

/// The named global shortcuts of the application (such as `main` and
/// `ai`); the system registration itself is done by the caller.
pub struct HotkeyManager {
    entries: Vec<ShortcutEntry>,
    calls: Ghost<Seq<HotkeyCall>>,
}

/// The name-to-id map of a list of entries; the first entry of a name wins.
pub open spec fn entry_map(e: Seq<ShortcutEntry>) -> Map<Seq<char>, u32>
    decreases e.len(),
{
    if e.len() == 0 {
        Map::empty()
    } else {
        entry_map(e.drop_last()).insert(e.last().name@, e.last().key@)
    }
}

/// No name occurs twice.
pub open spec fn names_distinct(e: Seq<ShortcutEntry>) -> bool {
    forall|i: int, j: int| 0 <= i < j < e.len() ==> #[trigger] e[i].name@ != #[trigger] e[j].name@
}

proof fn lemma_entry_map(e: Seq<ShortcutEntry>)
    requires
        names_distinct(e),
    ensures
        forall|n: Seq<char>| #[trigger] entry_map(e).contains_key(n) <==> exists|i: int| 0 <= i < e.len() && e[i].name@ == n,
        forall|i: int| 0 <= i < e.len() ==> #[trigger] entry_map(e)[e[i].name@] == e[i].key@,
    decreases e.len(),
{
    if e.len() > 0 {
        let p = e.drop_last();
        let last = e.last();
        assert(names_distinct(p)) by {
            assert forall|a: int, b: int| 0 <= a < b < p.len() implies #[trigger] p[a].name@ != #[trigger] p[b].name@ by {
                assert(p[a] == e[a] && p[b] == e[b]);
            }
        }
        lemma_entry_map(p);
        assert(entry_map(e) == entry_map(p).insert(last.name@, last.key@));
        assert forall|n: Seq<char>| #[trigger] entry_map(e).contains_key(n) <==> exists|i: int| 0 <= i < e.len() && e[i].name@ == n by {
            if n == last.name@ {
                assert(e[e.len() - 1].name@ == n);
            } else {
                if entry_map(p).contains_key(n) {
                    let i = choose|i: int| 0 <= i < p.len() && p[i].name@ == n;
                    assert(p[i] == e[i]);
                }
                if exists|i: int| 0 <= i < e.len() && e[i].name@ == n {
                    let i = choose|i: int| 0 <= i < e.len() && e[i].name@ == n;
                    assert(i != e.len() - 1);
                    assert(p[i] == e[i]);
                    assert(entry_map(p).contains_key(n));
                }
            }
        }
        assert forall|i: int| 0 <= i < e.len() implies #[trigger] entry_map(e)[e[i].name@] == e[i].key@ by {
            if i < e.len() - 1 {
                assert(p[i] == e[i]);
                assert(e[i].name@ != e[e.len() - 1].name@);
                assert(entry_map(p)[p[i].name@] == p[i].key@);
            }
        }
    }
}

impl View for HotkeyManager {
    type V = Map<Seq<char>, u32>;

    closed spec fn view(&self) -> Map<Seq<char>, u32> {
        entry_map(self.entries@)
    }
}

impl HotkeyManager {
    /// The registry keeps each name once.
    pub closed spec fn wf(&self) -> bool {
        names_distinct(self.entries@)
    }

    /// The requests made to the system for this registry so far, in order.
    pub closed spec fn calls(&self) -> Seq<HotkeyCall> {
        self.calls@
    }

    /// An empty registry.
    pub fn new() -> (m: HotkeyManager)
        ensures
            m.wf(),
            m@ == Map::<Seq<char>, u32>::empty(),
            m.calls().len() == 0,
    {
        HotkeyManager { entries: Vec::new(), calls: Ghost(Seq::empty()) }
    }

    fn find(&self, name: &str) -> (r: Option<usize>)
        requires
            self.wf(),
        ensures
            match r {
                Some(i) => i < self.entries@.len() && self.entries@[i as int].name@ == name@,
                None => forall|i: int| 0 <= i < self.entries@.len() ==> #[trigger] self.entries@[i].name@ != name@,
            },
    {
        let mut k: usize = 0;
        while k < self.entries.len()
            invariant
                k <= self.entries@.len(),
                forall|i: int| 0 <= i < k ==> #[trigger] self.entries@[i].name@ != name@,
            decreases self.entries.len() - k,
        {
            if crate::settings::str_equals(self.entries[k].name.as_str(), name) {
                return Some(k);
            }
            k = k + 1;
        }
        None
    }

    /// The shortcut to register with the system for binding `name` to
    /// `shortcut` (trimmed): `None` when `name` already has that shortcut,
    /// an error when the text is not a shortcut.
    pub fn prepare_register(&self, name: &str, shortcut: &str) -> (r: Result<Option<ParsedHotkey>, String>)
        requires
            self.wf(),
        ensures
            match hotkey_parse(trim(shortcut@)) {
                Err(e) => r matches Err(m) && m@ == "无效快捷键格式: "@ + e,
                Ok(id) => if self@.contains_key(name@) && self@[name@] == id {
                    r matches Ok(None)
                } else {
                    r matches Ok(Some(k)) && k@ == id
                },
            },
    {
        proof {
            reveal_strlit("");
        }
        let text = trim_str(shortcut);
        let key = match parse_hotkey(text.as_str()) {
            Ok(p) => p,
            Err(e) => {
                return Err(message3("无效快捷键格式: ", e.as_str(), ""));
            },
        };
        proof {
            lemma_entry_map(self.entries@);
        }
        match self.find(name) {
            Some(i) => {
                if self.entries[i].key.id() == key.id() {
                    return Ok(None);
                }
            },
            None => {},
        }
        Ok(Some(key))
    }

    /// Binds `name` to a shortcut the system accepted; the shortcut it
    /// replaces, with its id, which the caller releases.
    pub fn commit_register(&mut self, name: &str, key: ParsedHotkey) -> (old_shortcut: Option<ParsedHotkey>)
        requires
            old(self).wf(),
        ensures
            final(self).wf(),
            final(self)@ == old(self)@.insert(name@, key@),
            final(self).calls() == old(self).calls(),
            match old_shortcut {
                Some(k) => old(self)@.contains_key(name@) && k@ == old(self)@[name@],
                None => !old(self)@.contains_key(name@),
            },
    {
        proof {
            lemma_entry_map(self.entries@);
        }
        let ghost old_entries = self.entries@;
        match self.find(name) {
            Some(i) => {
                let entry = ShortcutEntry { name: String::from_str(name), key };
                let previous = self.entries[i].key;
                self.entries.set(i, entry);
                proof {
                    let e = self.entries@;
                    assert(names_distinct(e)) by {
                        assert forall|a: int, b: int| 0 <= a < b < e.len() implies #[trigger] e[a].name@ != #[trigger] e[b].name@ by {
                            if a != i && b != i {
                                assert(e[a] == old_entries[a] && e[b] == old_entries[b]);
                            } else if a == i {
                                assert(e[b] == old_entries[b]);
                            } else {
                                assert(e[a] == old_entries[a]);
                            }
                        }
                    }
                    lemma_entry_map(e);
                    assert(entry_map(e) =~= entry_map(old_entries).insert(name@, key@)) by {
                        assert forall|n: Seq<char>| #[trigger] entry_map(e).contains_key(n) == entry_map(old_entries).insert(name@, key@).contains_key(n) by {
                            if entry_map(e).contains_key(n) {
                                let j = choose|j: int| 0 <= j < e.len() && e[j].name@ == n;
                                if j != i {
                                    assert(old_entries[j] == e[j]);
                                }
                            }
                            if entry_map(old_entries).contains_key(n) {
                                let j = choose|j: int| 0 <= j < old_entries.len() && old_entries[j].name@ == n;
                                if j != i {
                                    assert(old_entries[j] == e[j]);
                                }
                            }
                            if n == name@ {
                                assert(e[i as int].name@ == n);
                            }
                        }
                        assert forall|n: Seq<char>| #[trigger] entry_map(e).contains_key(n) implies entry_map(e)[n] == entry_map(old_entries).insert(name@, key@)[n] by {
                            let j = choose|j: int| 0 <= j < e.len() && e[j].name@ == n;
                            if j != i {
                                assert(old_entries[j] == e[j]);
                            }
                        }
                    }
                }
                Some(previous)
            },
            None => {
                self.entries.push(ShortcutEntry { name: String::from_str(name), key });
                proof {
                    let e = self.entries@;
                    assert(e.drop_last() =~= old_entries);
                    assert(names_distinct(e)) by {
                        assert forall|a: int, b: int| 0 <= a < b < e.len() implies #[trigger] e[a].name@ != #[trigger] e[b].name@ by {
                            if b < e.len() - 1 {
                                assert(e[a] == old_entries[a] && e[b] == old_entries[b]);
                            } else {
                                assert(e[a] == old_entries[a]);
                            }
                        }
                    }
                }
                None
            },
        }
    }

    /// Removes the binding of `name`; the shortcut it had, with its id,
    /// which the caller releases.
    pub fn remove(&mut self, name: &str) -> (old_shortcut: Option<ParsedHotkey>)
        requires
            old(self).wf(),
        ensures
            final(self).wf(),
            final(self)@ == old(self)@.remove(name@),
            final(self).calls() == old(self).calls(),
            match old_shortcut {
                Some(k) => old(self)@.contains_key(name@) && k@ == old(self)@[name@],
                None => !old(self)@.contains_key(name@),
            },
    {
        proof {
            lemma_entry_map(self.entries@);
        }
        let ghost old_entries = self.entries@;
        match self.find(name) {
            Some(i) => {
                let removed = self.entries.remove(i);
                proof {
                    let e = self.entries@;
                    assert(e =~= old_entries.take(i as int) + old_entries.skip(i + 1));
                    assert(names_distinct(e)) by {
                        assert forall|a: int, b: int| 0 <= a < b < e.len() implies #[trigger] e[a].name@ != #[trigger] e[b].name@ by {
                            let oa = if a < i { a } else { a + 1 };
                            let ob = if b < i { b } else { b + 1 };
                            assert(e[a] == old_entries[oa] && e[b] == old_entries[ob]);
                        }
                    }
                    lemma_entry_map(e);
                    assert(entry_map(e) =~= entry_map(old_entries).remove(name@)) by {
                        assert forall|n: Seq<char>| #[trigger] entry_map(e).contains_key(n) == entry_map(old_entries).remove(name@).contains_key(n) by {
                            if entry_map(e).contains_key(n) {
                                let j = choose|j: int| 0 <= j < e.len() && e[j].name@ == n;
                                let oj = if j < i { j } else { j + 1 };
                                assert(e[j] == old_entries[oj]);
                            }
                            if entry_map(old_entries).contains_key(n) && n != name@ {
                                let j = choose|j: int| 0 <= j < old_entries.len() && old_entries[j].name@ == n;
                                assert(j != i);
                                let k = if j < i { j } else { j - 1 };
                                assert(e[k] == old_entries[j]);
                            }
                        }
                        assert forall|n: Seq<char>| #[trigger] entry_map(e).contains_key(n) implies entry_map(e)[n] == entry_map(old_entries).remove(name@)[n] by {
                            let j = choose|j: int| 0 <= j < e.len() && e[j].name@ == n;
                            let oj = if j < i { j } else { j + 1 };
                            assert(e[j] == old_entries[oj]);
                        }
                    }
                }
                Some(removed.key)
            },
            None => {
                proof {
                    assert(entry_map(old_entries).remove(name@) =~= entry_map(old_entries));
                }
                None
            },
        }
    }

    /// The name bound to the shortcut with id `id`, if any.
    pub fn route(&self, id: u32) -> (r: Option<String>)
        requires
            self.wf(),
        ensures
            match r {
                Some(n) => self@.contains_key(n@) && self@[n@] == id,
                None => forall|n: Seq<char>| #[trigger] self@.contains_key(n) ==> self@[n] != id,
            },
    {
        proof {
            lemma_entry_map(self.entries@);
        }
        let mut k: usize = 0;
        while k < self.entries.len()
            invariant
                self.wf(),
                k <= self.entries@.len(),
                forall|i: int| 0 <= i < k ==> #[trigger] self.entries@[i].key@ != id,
            decreases self.entries.len() - k,
        {
            if self.entries[k].key.id() == id {
                let n = String::from_str(self.entries[k].name.as_str());
                proof {
                    lemma_entry_map(self.entries@);
                }
                return Some(n);
            }
            k = k + 1;
        }
        proof {
            assert forall|n: Seq<char>| #[trigger] self@.contains_key(n) implies self@[n] != id by {
                let j = choose|j: int| 0 <= j < self.entries@.len() && self.entries@[j].name@ == n;
                assert(self.entries@[j].key@ != id);
            }
        }
        None
    }
}

impl HotkeyManager {
    /// Binds `name` to `shortcut` (trimmed) and registers it with the
    /// system, releasing the shortcut it replaces. An unreadable shortcut
    /// is refused; nothing happens when `name` already has that shortcut;
    /// when the system refuses the new shortcut the binding is unchanged.
    /// The requests made are the registration of the new shortcut and, once
    /// it is accepted, the release of the one `name` had.
    pub fn register(&mut self, system: &SystemHotkeys, name: &str, shortcut: &str) -> (r: Result<(), String>)
        requires
            old(self).wf(),
        ensures
            final(self).wf(),
            extends(final(self).calls(), old(self).calls()),
            match hotkey_parse(trim(shortcut@)) {
                Err(e) => (r matches Err(m) && m@ == "无效快捷键格式: "@ + e) && final(self)@ == old(self)@
                    && final(self).calls() == old(self).calls(),
                Ok(id) => if old(self)@.contains_key(name@) && old(self)@[name@] == id {
                    r is Ok && final(self)@ == old(self)@ && final(self).calls() == old(self).calls()
                } else {
                    let added = final(self).calls().skip(old(self).calls().len() as int);
                    &&& r is Ok ==> final(self)@ == old(self)@.insert(name@, id)
                        && added.len() == (if old(self)@.contains_key(name@) { 2int } else { 1int })
                        && added[0] == HotkeyCall::Register(id, true)
                        && (old(self)@.contains_key(name@) ==> (added[1] matches HotkeyCall::Unregister(o, _) && o == old(self)@[name@]))
                    &&& r matches Err(m) ==> final(self)@ == old(self)@ && has_prefix(m@, "注册冲突或失败: "@)
                        && added == seq![HotkeyCall::Register(id, false)]
                },
            },
            hotkey_parse(trim(shortcut@)) matches Ok(id) ==> {
                let added = final(self).calls().skip(old(self).calls().len() as int);
                &&& register_calls(old(self)@, name@, id, added)
                &&& (r is Ok) == !registration_refused(added)
            },
    {
        let ghost start = self.calls@;
        assert(start.take(start.len() as int) =~= start);
        assert(start.skip(start.len() as int) =~= Seq::<HotkeyCall>::empty());
        let key = match self.prepare_register(name, shortcut) {
            Err(e) => {
                return Err(e);
            },
            Ok(None) => {
                proof {
                    assert(self@.insert(name@, self@[name@]) =~= self@);
                }
                return Ok(());
            },
            Ok(Some(p)) => p,
        };
        let id = key.id();
        let registered = request_register(&system.manager, &key, &mut self.calls);
        match registered {
            Ok(()) => {},
            Err(e) => {
                let msg = message3("注册冲突或失败: ", e.as_str(), "");
                proof {
                    reveal_strlit("");
                    assert(msg@.take("注册冲突或失败: "@.len() as int) =~= "注册冲突或失败: "@);
                    assert(self.calls@.take(start.len() as int) =~= start);
                    assert(self.calls@.skip(start.len() as int) =~= seq![HotkeyCall::Register(id, false)]);
                    assert(refused_registration(self.calls@.skip(start.len() as int)[0]));
                }
                return Err(msg);
            },
        }
        let ghost mid = self.calls@;
        match self.commit_register(name, key) {
            Some(old_key) => {
                let _ = request_release(&system.manager, &old_key, &mut self.calls);
            },
            None => {},
        }
        proof {
            assert(self.calls@.take(start.len() as int) =~= start);
            let added = self.calls@.skip(start.len() as int);
            assert(added[0] == mid[start.len() as int]);
            assert forall|k: int| 0 <= k < added.len() implies !refused_registration(#[trigger] added[k]) by {
                if k == 1 {
                    assert(added[1] matches HotkeyCall::Unregister(_, _));
                }
            }
        }
        Ok(())
    }

    /// Removes the binding of `name` and releases its shortcut with the
    /// system (a refusal there is ignored): one release request, of the
    /// shortcut `name` had, when it had one.
    pub fn unregister(&mut self, system: &SystemHotkeys, name: &str) -> (r: Result<(), String>)
        requires
            old(self).wf(),
        ensures
            final(self).wf(),
            final(self)@ == old(self)@.remove(name@),
            r is Ok,
            extends(final(self).calls(), old(self).calls()),
            if old(self)@.contains_key(name@) {
                let added = final(self).calls().skip(old(self).calls().len() as int);
                added.len() == 1 && (added[0] matches HotkeyCall::Unregister(o, _) && o == old(self)@[name@])
            } else {
                final(self).calls() == old(self).calls()
            },
            release_calls(old(self)@, name@, final(self).calls().skip(old(self).calls().len() as int)),
    {
        let ghost start = self.calls@;
        assert(start.take(start.len() as int) =~= start);
        assert(start.skip(start.len() as int) =~= Seq::<HotkeyCall>::empty());
        match self.remove(name) {
            Some(old_key) => {
                let released = request_release(&system.manager, &old_key, &mut self.calls);
                proof {
                    assert(self.calls@.take(start.len() as int) =~= start);
                    assert(self.calls@.skip(start.len() as int) =~= seq![HotkeyCall::Unregister(old_key@, released is Ok)]);
                }
            },
            None => {},
        }
        Ok(())
    }
}

} // verus!
