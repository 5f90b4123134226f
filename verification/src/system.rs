//! The system's settings that the program changes: the system proxy, the start at
//! logon, and the commands that are handed to the system.
use vstd::prelude::*;

use crate::codec::{from_utf16_lossy, utf16_text};
use crate::singbox::{AppState, AppView};
use crate::text::{
    decimal, equal_ignoring_case, joined, law_decimal_reads_back, number_in, number_text, opt_view,
    owned_view, same_ignoring_case, same_text, trim, trimmed,
};

verus! {

// ---- The registry ----

/// A change of the registry.
#[derive(Debug, PartialEq, Eq)]
pub enum RegistryChange {
    /// Whether there is a system proxy.
    ProxyEnable(u32),
    /// The address of the system proxy.
    ProxyServer(String),
    /// The program to start at logon, or none.
    RunEntry(Option<String>),
}

/// A change of the registry, its texts as sequences of characters.
#[verifier::ext_equal]
pub enum ChangeView {
    ProxyEnable(u32),
    ProxyServer(Seq<char>),
    RunEntry(Option<Seq<char>>),
}

impl View for RegistryChange {
    type V = ChangeView;

    open spec fn view(&self) -> ChangeView {
        match self {
            RegistryChange::ProxyEnable(n) => ChangeView::ProxyEnable(*n),
            RegistryChange::ProxyServer(s) => ChangeView::ProxyServer(s@),
            RegistryChange::RunEntry(e) => ChangeView::RunEntry(owned_view(*e)),
        }
    }
}

/// Changes, their texts as sequences of characters.
pub open spec fn changes_view(changes: Seq<RegistryChange>) -> Seq<ChangeView> {
    changes.map_values(|c: RegistryChange| c@)
}

/// A change was handed to `write`, with a result.
pub open spec fn was_written<F: Fn(&RegistryChange) -> Result<(), String>>(
    write: F,
    change: ChangeView,
    r: Result<(), String>,
) -> bool {
    exists|c: &RegistryChange| c@ == change && #[trigger] call_ensures(write, (c,), r)
}

/// All of some changes were written, if `r` is a success; else those before some
/// change were, and that one failed with the error of `r`.
pub open spec fn all_written<F: Fn(&RegistryChange) -> Result<(), String>>(
    write: F,
    changes: Seq<ChangeView>,
    r: Result<(), String>,
) -> bool {
    match r {
        Ok(_) => forall|i: int|
            0 <= i < changes.len() ==> was_written(write, #[trigger] changes[i], Ok(())),
        Err(e) => exists|k: int|
            0 <= k < changes.len() && was_written(write, #[trigger] changes[k], Err(e)) && forall|
                i: int,
            |
                0 <= i < k ==> was_written(write, #[trigger] changes[i], Ok(())),
    }
}

/// `write` takes each of some changes. It need take no other, so it is handed no
/// other.
pub open spec fn takes_changes<F: Fn(&RegistryChange) -> Result<(), String>>(
    write: F,
    changes: Seq<ChangeView>,
) -> bool {
    forall|c: &RegistryChange| changes.contains(c@) ==> #[trigger] call_requires(write, (c,))
}

/// Hands changes to `write`, one after another, until one fails.
fn write_changes<F: Fn(&RegistryChange) -> Result<(), String>>(
    changes: &Vec<RegistryChange>,
    write: &F,
) -> (r: Result<(), String>)
    requires
        takes_changes(*write, changes_view(changes@)),
    ensures
        all_written(*write, changes_view(changes@), r),
{
    let ghost all = changes_view(changes@);
    let mut i: usize = 0;
    while i < changes.len()
        invariant
            i <= changes.len(),
            all == changes_view(changes@),
            takes_changes(*write, all),
            forall|j: int| 0 <= j < i ==> was_written(*write, #[trigger] all[j], Ok(())),
        decreases changes.len() - i,
    {
        assert(all[i as int] == changes[i as int]@);
        match write(&changes[i]) {
            Ok(done) => {
                assert(done == ());
                assert(was_written(*write, all[i as int], Ok(())));
            },
            Err(e) => {
                assert(was_written(*write, all[i as int], Err(e)));
                return Err(e);
            },
        }
        i = i + 1;
    }
    Ok(())
}

/// The text that the registry or the clipboard holds: its characters up to a zero,
/// without white space at its ends; nothing if it is blank.
pub open spec fn held_text(units: Seq<u16>) -> Option<Seq<char>> {
    let text = trimmed(utf16_text(units.take(zero_index(units, 0))));
    if text.len() == 0 {
        None
    } else {
        Some(text)
    }
}

/// The first index at or after `from` at which a zero stands; the length if there
/// is none.
pub open spec fn zero_index(units: Seq<u16>, from: int) -> int
    decreases units.len() - from,
{
    if from < 0 || from >= units.len() {
        units.len() as int
    } else if units[from] == 0 {
        from
    } else {
        zero_index(units, from + 1)
    }
}

/// The units before the first zero.
pub fn until_zero(units: &Vec<u16>) -> (r: Vec<u16>)
    ensures
        r@ == units@.take(zero_index(units@, 0)),
{
    let mut out: Vec<u16> = Vec::new();
    let mut i: usize = 0;
    while i < units.len()
        invariant
            i <= units.len(),
            out@ == units@.take(i as int),
            zero_index(units@, 0) == zero_index(units@, i as int),
        decreases units.len() - i,
    {
        if units[i] == 0 {
            return out;
        }
        out.push(units[i]);
        i = i + 1;
    }
    out
}

/// A text without white space at its ends, or nothing if it is blank.
pub fn unless_blank(s: &str) -> (r: Option<String>)
    ensures
        match r {
            Some(t) => t@ == trimmed(s@) && t@.len() > 0,
            None => trimmed(s@).len() == 0,
        },
{
    let text = trim(s);
    proof {
        reveal_strlit("");
    }
    if same_text(text.as_str(), "") {
        None
    } else {
        assert(text@.len() > 0) by {
            if text@.len() == 0 {
                assert(text@ =~= ""@);
            }
        }
        Some(text)
    }
}

/// The text that the registry or the clipboard holds.
pub fn text_held(units: &Vec<u16>) -> (r: Option<String>)
    ensures
        owned_view(r) == held_text(units@),
{
    let used = until_zero(units);
    let text = from_utf16_lossy(&used);
    unless_blank(text.as_str())
}

/// A code of the system in decimal.
pub open spec fn code_text(code: i32) -> Seq<char> {
    if code < 0 {
        "-"@ + decimal((-code) as nat)
    } else {
        decimal(code as nat)
    }
}

/// A code of the system in decimal.
fn number_of_code(code: i32) -> (r: String)
    ensures
        r@ == code_text(code),
{
    if code < 0 {
        joined("-", number_text((-(code as i64)) as u64).as_str())
    } else {
        number_text(code as u64)
    }
}

/// What the code means that the system gives for writing to the registry: 0 is
/// success.
pub fn write_result(code: i32) -> (r: Result<(), String>)
    ensures
        match r {
            Ok(_) => code == 0,
            Err(e) => code != 0 && e@ == "写入注册表失败 (code "@ + code_text(code) + ")"@,
        },
{
    if code == 0 {
        Ok(())
    } else {
        let text = joined("写入注册表失败 (code ", number_of_code(code).as_str());
        Err(joined(text.as_str(), ")"))
    }
}

/// What the code means that the system gives for deleting from the registry: 0 is
/// success, and so is 2, which says that there was nothing to delete.
pub fn delete_result(code: i32) -> (r: Result<(), String>)
    ensures
        match r {
            Ok(_) => code == 0 || code == 2,
            Err(e) => code != 0 && code != 2 && e@ == "删除注册表值失败 (code "@ + code_text(code)
                + ")"@,
        },
{
    if code == 0 || code == 2 {
        Ok(())
    } else {
        let text = joined("删除注册表值失败 (code ", number_of_code(code).as_str());
        Err(joined(text.as_str(), ")"))
    }
}

// ---- The system proxy ----

/// The address that the system proxy has while it is the program's own.
pub open spec fn own_address(s: AppView) -> Seq<char> {
    "127.0.0.1:"@ + decimal(s.proxy_port as nat)
}

/// The changes that turn the system proxy on or off.
pub open spec fn proxy_changes(s: AppView, enable: bool) -> Seq<ChangeView> {
    if enable {
        seq![ChangeView::ProxyEnable(1), ChangeView::ProxyServer(own_address(s))]
    } else {
        seq![ChangeView::ProxyEnable(0)]
    }
}

/// The system proxy is the program's own, going by its address.
pub open spec fn is_own_proxy(s: AppView, server: Option<Seq<char>>) -> bool {
    match server {
        Some(address) => equal_ignoring_case(address, own_address(s)),
        None => false,
    }
}

/// The system proxy is on, going by the registry.
pub fn is_system_proxy_enabled(value: Option<u32>) -> (r: bool)
    ensures
        r == (value == Some(1u32)),
{
    match value {
        Some(n) => n == 1,
        None => false,
    }
}

/// The change that turns the start at logon on or off.
pub open spec fn autostart_changes(enable: bool, exe: Seq<char>) -> Seq<ChangeView> {
    seq![
        ChangeView::RunEntry(
            if enable {
                Some(exe)
            } else {
                None
            },
        ),
    ]
}

impl AppState {
    /// The address that the system proxy has while it is the program's own.
    pub fn proxy_address(&self) -> (r: String)
        ensures
            r@ == own_address(self@),
    {
        joined("127.0.0.1:", number_text(self.proxy_port as u64).as_str())
    }

    /// The changes that turn the system proxy on or off, in their order.
    pub fn system_proxy_changes(&self, enable: bool) -> (r: Vec<RegistryChange>)
        ensures
            changes_view(r@) == proxy_changes(self@, enable),
    {
        let mut changes: Vec<RegistryChange> = Vec::new();
        if enable {
            changes.push(RegistryChange::ProxyEnable(1));
            changes.push(RegistryChange::ProxyServer(self.proxy_address()));
        } else {
            changes.push(RegistryChange::ProxyEnable(0));
        }
        assert(changes_view(changes@) =~= proxy_changes(self@, enable));
        changes
    }

    /// Turns the system proxy on or off by handing changes to `write`, one after
    /// another, until one fails.
    pub fn set_system_proxy<F: Fn(&RegistryChange) -> Result<(), String>>(
        &mut self,
        enable: bool,
        write: F,
    ) -> (r: Result<(), String>)
        requires
            takes_changes(write, proxy_changes(old(self)@, enable)),
        ensures
            all_written(write, proxy_changes(old(self)@, enable), r),
            final(self)@ == (match r {
                Ok(_) => AppView { system_proxy: enable, ..old(self)@ },
                Err(_) => old(self)@,
            }),
    {
        let changes = self.system_proxy_changes(enable);
        match write_changes(&changes, &write) {
            Ok(_) => {
                self.system_proxy = enable;
                Ok(())
            },
            Err(e) => Err(e),
        }
    }

    /// Whether the system proxy is the program's own, going by its address.
    pub fn owns_proxy(&self, server: Option<&str>) -> (r: bool)
        ensures
            r == is_own_proxy(self@, opt_view(server)),
    {
        match server {
            Some(address) => same_ignoring_case(address, self.proxy_address().as_str()),
            None => false,
        }
    }

    /// Whether the system proxy is to be turned off when the program ends: if the
    /// program turned it on and it is still the program's own. `read_server` reads
    /// its address, and is called only if the program turned it on.
    pub fn cleanup_proxy_on_exit<F: FnOnce() -> Option<String>>(&self, read_server: F) -> (r: bool)
        requires
            self@.system_proxy ==> call_requires(read_server, ()),
        ensures
            !self@.system_proxy ==> !r,
            self@.system_proxy ==> exists|server: Option<String>| #[trigger]
                call_ensures(read_server, (), server) && r == is_own_proxy(
                    self@,
                    owned_view(server),
                ),
    {
        if !self.system_proxy {
            return false;
        }
        let server = read_server();
        match &server {
            Some(address) => self.owns_proxy(Some(address.as_str())),
            None => false,
        }
    }

    /// Whether the system proxy is a dead one of the program's own, which is to be
    /// turned off: it is on, the address is the program's, and nothing listens
    /// there. `listening` tries that, and is called for no other address.
    pub fn cleanup_dangling_proxy<F: FnOnce() -> bool>(
        &self,
        enabled: bool,
        server: Option<&str>,
        listening: F,
    ) -> (r: bool)
        requires
            enabled && is_own_proxy(self@, opt_view(server)) ==> call_requires(listening, ()),
        ensures
            if enabled && is_own_proxy(self@, opt_view(server)) {
                call_ensures(listening, (), !r)
            } else {
                !r
            },
    {
        if !enabled || !self.owns_proxy(server) {
            return false;
        }
        !listening()
    }

    /// Turns the start at logon on or off by handing the change to `write`.
    pub fn set_autostart<F: Fn(&RegistryChange) -> Result<(), String>>(
        &mut self,
        enable: bool,
        exe: &str,
        write: F,
    ) -> (r: Result<(), String>)
        requires
            takes_changes(write, autostart_changes(enable, exe@)),
        ensures
            all_written(write, autostart_changes(enable, exe@), r),
            final(self)@ == (match r {
                Ok(_) => AppView { autostart: enable, ..old(self)@ },
                Err(_) => old(self)@,
            }),
    {
        let mut changes: Vec<RegistryChange> = Vec::new();
        changes.push(
            RegistryChange::RunEntry(
                if enable {
                    Some(exe.to_owned())
                } else {
                    None
                },
            ),
        );
        assert(changes_view(changes@) =~= autostart_changes(enable, exe@));
        match write_changes(&changes, &write) {
            Ok(_) => {
                self.autostart = enable;
                Ok(())
            },
            Err(e) => Err(e),
        }
    }
}

// ---- Commands ----

/// The command that cleans up at the next logon.
pub fn logon_cleanup_command(exe: &str) -> (r: String)
    ensures
        r@ == "\""@ + exe@ + "\" --cleanup"@,
{
    let text = joined("\"", exe);
    joined(text.as_str(), "\" --cleanup")
}

/// The PowerShell command that starts the program again with administrator rights.
pub fn elevation_command(exe: &str, dir: &str) -> (r: String)
    ensures
        r@ == "Start-Process -FilePath '"@ + exe@ + "' -Verb RunAs -WorkingDirectory '"@ + dir@
            + "'"@,
{
    let mut text = "Start-Process -FilePath '".to_owned();
    text.append(exe);
    text.append("' -Verb RunAs -WorkingDirectory '");
    text.append(dir);
    text.append("'");
    text
}

// ---- Laws ----

/// The units of a text whose characters are each one unit.
pub open spec fn units_of(s: Seq<char>) -> Seq<u16> {
    s.map_values(|c: char| c as u16)
}

/// Each character of a text is one unit, and none is a zero.
pub open spec fn is_one_unit_each(s: Seq<char>) -> bool {
    forall|i: int|
        0 <= i < s.len() ==> '\0' < #[trigger] s[i] <= '\u{d7ff}' || '\u{e000}' <= s[i]
            <= '\u{ffff}'
}

proof fn lemma_units_read(s: Seq<char>)
    requires
        is_one_unit_each(s),
    ensures
        utf16_text(units_of(s)) == s,
    decreases s.len(),
{
    let units = units_of(s);
    if s.len() > 0 {
        let rest = s.skip(1);
        assert forall|i: int| 0 <= i < rest.len() implies '\0' < #[trigger] rest[i] <= '\u{d7ff}'
            || '\u{e000}' <= rest[i] <= '\u{ffff}' by {
            assert(rest[i] == s[i + 1]);
        }
        lemma_units_read(rest);
        assert(units.skip(1) =~= units_of(rest));
        assert('\0' < s[0] <= '\u{ffff}');
        assert(units[0] == s[0] as u16);
        assert(units[0] as char == s[0]);
        assert(seq![s[0]] + rest =~= s);
    } else {
        assert(units =~= Seq::empty());
        assert(utf16_text(units) =~= s);
    }
}

proof fn lemma_zero_index(units: Seq<u16>, rest: Seq<u16>, from: int)
    requires
        0 <= from <= units.len(),
        forall|i: int| 0 <= i < units.len() ==> #[trigger] units[i] != 0,
    ensures
        zero_index(units + seq![0u16] + rest, from) == units.len(),
        zero_index(units, from) == units.len(),
    decreases units.len() - from,
{
    let all = units + seq![0u16] + rest;
    if from < units.len() {
        assert(all[from] == units[from]);
        lemma_zero_index(units, rest, from + 1);
    } else {
        assert(all[from] == 0);
    }
}

/// A text that is held ends at the first zero, whatever stands behind it, or else with
/// the units. White space at its ends is dropped, and a blank one is none.
pub proof fn law_held_texts(s: Seq<char>, rest: Seq<u16>)
    requires
        is_one_unit_each(s),
    ensures
        held_text(units_of(s) + seq![0u16] + rest) == held_text(units_of(s)),
        trimmed(s).len() > 0 ==> held_text(units_of(s)) == Some(trimmed(s)),
        trimmed(s).len() == 0 ==> held_text(units_of(s)) is None,
{
    let units = units_of(s);
    assert forall|i: int| 0 <= i < units.len() implies #[trigger] units[i] != 0 by {
        assert('\0' < s[i] <= '\u{ffff}');
        assert(units[i] == s[i] as u16);
    }
    lemma_zero_index(units, rest, 0);
    assert((units + seq![0u16] + rest).take(units.len() as int) =~= units);
    assert(units.take(units.len() as int) =~= units);
    lemma_units_read(s);
}

/// A code is shown by its digits, which read back as it, after a minus sign if it is
/// negative.
pub proof fn law_codes_shown(code: i32)
    ensures
        code >= 0 ==> number_in(code_text(code)) == Some(code as nat),
        code < 0 ==> code_text(code)[0] == '-' && number_in(code_text(code).skip(1)) == Some(
            (-code) as nat,
        ),
{
    reveal_strlit("-");
    if code >= 0 {
        law_decimal_reads_back(code as nat);
    } else {
        law_decimal_reads_back((-code) as nat);
        assert(code_text(code).skip(1) =~= decimal((-code) as nat));
    }
}

/// Writing succeeded only with the code 0, and deleting also with the code 2. Any other
/// code is an error that names it.
pub proof fn law_codes(code: i32, written: Result<(), String>, deleted: Result<(), String>)
    requires
        call_ensures(write_result, (code,), written),
        call_ensures(delete_result, (code,), deleted),
    ensures
        written is Ok <==> code == 0,
        deleted is Ok <==> code == 0 || code == 2,
        written matches Err(e) ==> e@ == "写入注册表失败 (code "@ + code_text(code) + ")"@,
        deleted matches Err(e) ==> e@ == "删除注册表值失败 (code "@ + code_text(code) + ")"@,
{
}

/// The system proxy is on exactly with the value 1.
pub proof fn law_proxy_values(n: u32, a: bool, b: bool)
    requires
        call_ensures(is_system_proxy_enabled, (Some(n),), a),
        call_ensures(is_system_proxy_enabled, (None,), b),
    ensures
        a <==> n == 1,
        !b,
{
}

/// A change that was written was handed to `write`, and success is reported only if
/// each was. A failure is that of the first change that could not be written, and those
/// before it were written.
pub proof fn law_changes_written<F: Fn(&RegistryChange) -> Result<(), String>>(
    write: F,
    changes: Seq<ChangeView>,
    r: Result<(), String>,
    i: int,
)
    requires
        all_written(write, changes, r),
    ensures
        r is Ok && 0 <= i < changes.len() ==> exists|c: &RegistryChange|
            c@ == changes[i] && #[trigger] call_ensures(write, (c,), Ok(())),
        r matches Err(e) ==> exists|k: int, c: &RegistryChange|
            0 <= k < changes.len() && c@ == #[trigger] changes[k] && #[trigger] call_ensures(
                write,
                (c,),
                Err(e),
            ) && (0 <= i < k ==> was_written(write, changes[i], Ok(()))),
{
    match r {
        Ok(_) => {
            if 0 <= i < changes.len() {
                assert(was_written(write, changes[i], Ok(())));
            }
        },
        Err(e) => {
            let k = choose|k: int|
                0 <= k < changes.len() && was_written(write, #[trigger] changes[k], Err(e))
                    && forall|j: int| 0 <= j < k ==> was_written(write, #[trigger] changes[j], Ok(()));
            let c = choose|c: &RegistryChange|
                c@ == changes[k] && #[trigger] call_ensures(write, (c,), Err(e));
            assert(c@ == changes[k] && call_ensures(write, (c,), Err(e)));
        },
    }
}

/// A command names the program as it is, between quotation marks.
pub proof fn law_commands(exe: &str, dir: &str, cleanup: String, elevation: String)
    requires
        call_ensures(logon_cleanup_command, (exe,), cleanup),
        call_ensures(elevation_command, (exe, dir), elevation),
    ensures
        cleanup@ == seq!['"'] + exe@ + seq!['"'] + " --cleanup"@,
        elevation@ == "Start-Process -FilePath "@ + seq!['\''] + exe@ + seq!['\'']
            + " -Verb RunAs -WorkingDirectory "@ + seq!['\''] + dir@ + seq!['\''],
{
    reveal_strlit("\"");
    reveal_strlit("\" --cleanup");
    reveal_strlit(" --cleanup");
    reveal_strlit("Start-Process -FilePath '");
    reveal_strlit("Start-Process -FilePath ");
    reveal_strlit("' -Verb RunAs -WorkingDirectory '");
    reveal_strlit(" -Verb RunAs -WorkingDirectory ");
    reveal_strlit("'");
    assert("\""@ =~= seq!['"']);
    assert("\" --cleanup"@ =~= seq!['"'] + " --cleanup"@);
    assert(cleanup@ =~= seq!['"'] + exe@ + seq!['"'] + " --cleanup"@);
    assert("Start-Process -FilePath '"@ =~= "Start-Process -FilePath "@ + seq!['\'']);
    assert("' -Verb RunAs -WorkingDirectory '"@ =~= seq!['\''] + " -Verb RunAs -WorkingDirectory "@
        + seq!['\'']);
    assert("'"@ =~= seq!['\'']);
    assert(elevation@ =~= "Start-Process -FilePath "@ + seq!['\''] + exe@ + seq!['\'']
        + " -Verb RunAs -WorkingDirectory "@ + seq!['\''] + dir@ + seq!['\'']);
}

/// A proxy is cleaned up while the program runs only if it is on, is the program's own
/// and nothing listens there; and on exit only if the program turned it on and it is
/// still its own.
pub proof fn law_cleanups<F: FnOnce() -> bool, G: FnOnce() -> Option<String>>(
    s: AppState,
    enabled: bool,
    server: Option<&str>,
    listening: F,
    dangling: bool,
    read_server: G,
    on_exit: bool,
)
    requires
        call_ensures(
            AppState::cleanup_dangling_proxy::<F>,
            (&s, enabled, server, listening),
            dangling,
        ),
        call_ensures(AppState::cleanup_proxy_on_exit::<G>, (&s, read_server), on_exit),
    ensures
        dangling ==> enabled && is_own_proxy(s@, opt_view(server)) && call_ensures(
            listening,
            (),
            false,
        ),
        !dangling && enabled && is_own_proxy(s@, opt_view(server)) ==> call_ensures(
            listening,
            (),
            true,
        ),
        on_exit ==> s.system_proxy && exists|held: Option<String>| #[trigger]
            call_ensures(read_server, (), held) && is_own_proxy(s@, owned_view(held)),
        !on_exit && s.system_proxy ==> exists|held: Option<String>| #[trigger]
            call_ensures(read_server, (), held) && !is_own_proxy(s@, owned_view(held)),
{
}

} // verus!
