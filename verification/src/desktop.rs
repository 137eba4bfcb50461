//! Desktop entries: the `.desktop` files through which applications are
//! found, read line by line into an [`App`] with its actions.
use vstd::prelude::*;
use vstd::string::StringExecFns;

use crate::text::{
    chars_eq, chars_of, chars_of_string, has_prefix, lines, lines_of, replace_all, replace_chars,
    split_chars, split_on, split_once, split_once_at, starts_with, string_from_chars, trim,
    trim_chars,
};

verus! {

/// A `[Desktop Action ...]` section of a desktop entry.
#[derive(Debug, Default, Clone, PartialEq, PartialOrd)]
pub struct AppAction {
    pub id: String,
    pub name: String,
    pub command: String,
    pub icon: Option<String>,
}

/// An application found through its desktop entry.
#[derive(Debug, Default, Clone)]
pub struct App {
    pub location: String,
    pub name: String,
    pub command: String,
    pub tryexec: String,
    pub comment: Option<String>,
    pub keywords: String,
    pub icon: Option<String>,
    pub is_flatpak: bool,
    pub actions: Vec<AppAction>,
}

/// A localised value of the key file behind a desktop entry: what the key
/// file gives for `key` in `group` in the current locale.
#[derive(Debug, Clone)]
pub struct LocaleEntry {
    pub group: String,
    pub key: String,
    pub value: String,
}

pub struct ActionView {
    pub id: Seq<char>,
    pub name: Seq<char>,
    pub command: Seq<char>,
    pub icon: Option<Seq<char>>,
}

pub struct AppView {
    pub location: Seq<char>,
    pub name: Seq<char>,
    pub command: Seq<char>,
    pub tryexec: Seq<char>,
    pub comment: Option<Seq<char>>,
    pub keywords: Seq<char>,
    pub icon: Option<Seq<char>>,
    pub is_flatpak: bool,
    pub actions: Seq<ActionView>,
}

pub struct LocaleView {
    pub group: Seq<char>,
    pub key: Seq<char>,
    pub value: Seq<char>,
}

pub open spec fn opt_str_view(o: Option<String>) -> Option<Seq<char>> {
    match o {
        Some(s) => Some(s@),
        None => None,
    }
}

impl View for AppAction {
    type V = ActionView;

    open spec fn view(&self) -> ActionView {
        ActionView { id: self.id@, name: self.name@, command: self.command@, icon: opt_str_view(self.icon) }
    }
}

impl View for App {
    type V = AppView;

    open spec fn view(&self) -> AppView {
        AppView {
            location: self.location@,
            name: self.name@,
            command: self.command@,
            tryexec: self.tryexec@,
            comment: opt_str_view(self.comment),
            keywords: self.keywords@,
            icon: opt_str_view(self.icon),
            is_flatpak: self.is_flatpak,
            actions: self.actions@.map_values(|a: AppAction| a@),
        }
    }
}

impl View for LocaleEntry {
    type V = LocaleView;

    open spec fn view(&self) -> LocaleView {
        LocaleView { group: self.group@, key: self.key@, value: self.value@ }
    }
}

pub open spec fn locales_view(v: Seq<LocaleEntry>) -> Seq<LocaleView> {
    v.map_values(|e: LocaleEntry| e@)
}

pub open spec fn no_action() -> ActionView {
    ActionView {
        id: Seq::<char>::empty(),
        name: Seq::<char>::empty(),
        command: Seq::<char>::empty(),
        icon: None,
    }
}

/// The localised value of `key` in `group`: the first entry that holds it.
pub open spec fn lookup_locale(locs: Seq<LocaleView>, group: Seq<char>, key: Seq<char>) -> Option<
    Seq<char>,
>
    decreases locs.len(),
{
    if locs.len() == 0 {
        None
    } else if locs[0].group == group && locs[0].key == key {
        Some(locs[0].value)
    } else {
        lookup_locale(locs.drop_first(), group, key)
    }
}

/// The localised value of `key` in `group`, or `fallback` where the key
/// file has none.
pub open spec fn localised_or(
    locs: Seq<LocaleView>,
    group: Seq<char>,
    key: Seq<char>,
    fallback: Seq<char>,
) -> Seq<char> {
    match lookup_locale(locs, group, key) {
        Some(v) => v,
        None => fallback,
    }
}

/// `desktop` is one of the `;`-separated names in `list`.
pub open spec fn desktop_listed(list: Seq<char>, desktop: Seq<char>) -> bool {
    desktop.len() > 0 && split_on(list, ';').contains(desktop)
}

/// `s` without any `[` or `]`.
pub open spec fn strip_brackets(s: Seq<char>) -> Seq<char>
    decreases s.len(),
{
    if s.len() == 0 {
        s
    } else {
        let rest = strip_brackets(s.drop_last());
        if s.last() == '[' || s.last() == ']' {
            rest
        } else {
            rest.push(s.last())
        }
    }
}

/// Where a reading of a desktop entry stands after some of its lines.
struct ScanState {
    pub app: AppView,
    pub action: ActionView,
    pub in_main: bool,
    pub in_action: bool,
    pub has_name: bool,
    pub has_exec: bool,
    pub has_type: bool,
    pub should_hide: bool,
    pub rejected: bool,
    pub section: Seq<char>,
}

/// A section header line `line` (trimmed, starting with `[`).
spec fn scan_header(st: ScanState, line: Seq<char>) -> ScanState {
    let actions = if st.in_action && st.action.name.len() > 0 && st.action.command.len() > 0 {
        st.app.actions.push(st.action)
    } else {
        st.app.actions
    };
    let action = if st.in_action {
        no_action()
    } else {
        st.action
    };
    let in_action = starts_with(line, "[Desktop Action"@);
    ScanState {
        app: AppView { actions, ..st.app },
        action: if in_action {
            ActionView {
                id: replace_all(replace_all(line, "[Desktop Action"@, Seq::empty()), "]"@, Seq::empty()),
                ..action
            }
        } else {
            action
        },
        in_main: line == "[Desktop Entry]"@,
        in_action,
        section: strip_brackets(line),
        ..st
    }
}

/// A `key=value` line of the `[Desktop Entry]` section.
spec fn scan_main_entry(
    st: ScanState,
    key: Seq<char>,
    value: Seq<char>,
    desktop: Seq<char>,
    locs: Seq<LocaleView>,
) -> ScanState {
    if key == "Type"@ {
        if value != "Application"@ {
            ScanState { rejected: true, ..st }
        } else {
            ScanState { has_type: true, ..st }
        }
    } else if key == "NoDisplay"@ || key == "Hidden"@ {
        if value == "true"@ {
            ScanState { should_hide: true, ..st }
        } else {
            st
        }
    } else if key == "OnlyShowIn"@ {
        if !desktop_listed(value, desktop) {
            ScanState { should_hide: true, ..st }
        } else {
            st
        }
    } else if key == "NotShowIn"@ {
        if desktop_listed(value, desktop) {
            ScanState { should_hide: true, ..st }
        } else {
            st
        }
    } else if key == "Name"@ {
        ScanState {
            app: AppView {
                name: localised_or(locs, "Desktop Entry"@, "Name"@, value),
                ..st.app
            },
            has_name: true,
            ..st
        }
    } else if key == "Exec"@ {
        ScanState { app: AppView { command: value, ..st.app }, has_exec: true, ..st }
    } else if key == "TryExec"@ {
        ScanState { app: AppView { tryexec: value, ..st.app }, ..st }
    } else if key == "Icon"@ {
        ScanState { app: AppView { icon: Some(value), ..st.app }, ..st }
    } else if key == "Comment"@ {
        ScanState {
            app: AppView {
                comment: Some(localised_or(locs, st.section, "Comment"@, value)),
                ..st.app
            },
            ..st
        }
    } else if key == "Keywords"@ {
        ScanState {
            app: AppView { keywords: localised_or(locs, st.section, "Keywords"@, value), ..st.app },
            ..st
        }
    } else {
        st
    }
}

/// A `key=value` line of a `[Desktop Action ...]` section.
spec fn scan_action_entry(
    st: ScanState,
    key: Seq<char>,
    value: Seq<char>,
    locs: Seq<LocaleView>,
) -> ScanState {
    if key == "Name"@ {
        ScanState {
            action: ActionView {
                name: localised_or(locs, st.section, "Name"@, value),
                ..st.action
            },
            ..st
        }
    } else if key == "Icon"@ {
        ScanState { action: ActionView { icon: Some(value), ..st.action }, ..st }
    } else if key == "Exec"@ {
        ScanState { action: ActionView { command: value, ..st.action }, ..st }
    } else {
        st
    }
}

/// One line of a desktop entry. Once the entry is rejected, nothing changes.
spec fn scan_line(
    st: ScanState,
    raw: Seq<char>,
    desktop: Seq<char>,
    locs: Seq<LocaleView>,
) -> ScanState {
    let line = trim(raw);
    if st.rejected || line.len() == 0 || line[0] == '#' {
        st
    } else if line[0] == '[' {
        scan_header(st, line)
    } else {
        match split_once(line, '=') {
            None => st,
            Some((k, v)) => {
                let st1 = if st.in_main {
                    scan_main_entry(st, trim(k), trim(v), desktop, locs)
                } else {
                    st
                };
                if st1.in_action {
                    scan_action_entry(st1, trim(k), trim(v), locs)
                } else {
                    st1
                }
            },
        }
    }
}

/// The state after reading `lines` in order.
spec fn scan_lines(
    st: ScanState,
    lines: Seq<Seq<char>>,
    desktop: Seq<char>,
    locs: Seq<LocaleView>,
) -> ScanState
    decreases lines.len(),
{
    if lines.len() == 0 {
        st
    } else {
        scan_line(scan_lines(st, lines.drop_last(), desktop, locs), lines.last(), desktop, locs)
    }
}

spec fn scan_start(location: Seq<char>, is_flatpak: bool) -> ScanState {
    ScanState {
        app: AppView {
            location,
            name: Seq::empty(),
            command: Seq::empty(),
            tryexec: Seq::empty(),
            comment: None,
            keywords: Seq::empty(),
            icon: None,
            is_flatpak,
            actions: Seq::empty(),
        },
        action: no_action(),
        in_main: false,
        in_action: false,
        has_name: false,
        has_exec: false,
        has_type: false,
        should_hide: false,
        rejected: false,
        section: Seq::empty(),
    }
}

/// The application that reading a desktop entry line by line gives.
spec fn scanned_entry(
    content: Seq<char>,
    location: Seq<char>,
    desktop: Seq<char>,
    is_flatpak: bool,
    locs: Option<Seq<LocaleView>>,
) -> Option<AppView> {
    match locs {
        None => None,
        Some(l) => {
            let fin = scan_lines(scan_start(location, is_flatpak), lines(content), desktop, l);
            if !fin.rejected && !fin.should_hide && fin.has_name && fin.has_exec && fin.has_type {
                Some(
                    if fin.action != no_action() {
                        AppView { actions: fin.app.actions.push(fin.action), ..fin.app }
                    } else {
                        fin.app
                    },
                )
            } else {
                None
            }
        },
    }
}


// ---------------------------------------------------------------------------
// What a desktop entry says.
/// A line that opens a section: trimmed, it starts with `[`.
pub open spec fn is_header(raw: Seq<char>) -> bool {
    let t = trim(raw);
    t.len() > 0 && t[0] == '['
}

/// The trimmed key and value of a `key=value` line; none for an empty
/// line, a comment (`#`), a header, or a line without `=`.
pub open spec fn key_value(raw: Seq<char>) -> Option<(Seq<char>, Seq<char>)> {
    let t = trim(raw);
    if t.len() == 0 || t[0] == '#' || t[0] == '[' {
        None
    } else {
        match split_once(t, '=') {
            Some((k, v)) => Some((trim(k), trim(v))),
            None => None,
        }
    }
}

/// The (trimmed) header of the section that the lines `ls` end in.
pub open spec fn section_header(ls: Seq<Seq<char>>) -> Option<Seq<char>>
    decreases ls.len(),
{
    if ls.len() == 0 {
        None
    } else if is_header(ls.last()) {
        Some(trim(ls.last()))
    } else {
        section_header(ls.drop_last())
    }
}

/// The lines `ls` end in a `[Desktop Entry]` section.
pub open spec fn in_entry_section(ls: Seq<Seq<char>>) -> bool {
    section_header(ls) == Some("[Desktop Entry]"@)
}

/// The lines `ls` end in a `[Desktop Action ...]` section.
pub open spec fn in_action_section(ls: Seq<Seq<char>>) -> bool {
    match section_header(ls) {
        Some(h) => starts_with(h, "[Desktop Action"@),
        None => false,
    }
}

/// The value of the last line for `key` in a `[Desktop Entry]` section of `ls`.
pub open spec fn entry_value(ls: Seq<Seq<char>>, key: Seq<char>) -> Option<Seq<char>>
    decreases ls.len(),
{
    if ls.len() == 0 {
        None
    } else {
        match key_value(ls.last()) {
            Some(kv) => if kv.0 == key && in_entry_section(ls.drop_last()) {
                Some(kv.1)
            } else {
                entry_value(ls.drop_last(), key)
            },
            None => entry_value(ls.drop_last(), key),
        }
    }
}

/// The value of the last line for `key` in the section that `ls` end in.
pub open spec fn section_value(ls: Seq<Seq<char>>, key: Seq<char>) -> Option<Seq<char>>
    decreases ls.len(),
{
    if ls.len() == 0 || is_header(ls.last()) {
        None
    } else {
        match key_value(ls.last()) {
            Some(kv) => if kv.0 == key {
                Some(kv.1)
            } else {
                section_value(ls.drop_last(), key)
            },
            None => section_value(ls.drop_last(), key),
        }
    }
}

/// Some line of a `[Desktop Entry]` section of `ls` gives a `Type` other
/// than `Application`.
pub open spec fn rejects(ls: Seq<Seq<char>>) -> bool
    decreases ls.len(),
{
    ls.len() > 0 && (rejects(ls.drop_last()) || (in_entry_section(ls.drop_last()) && match key_value(
        ls.last(),
    ) {
        Some(kv) => kv.0 == "Type"@ && kv.1 != "Application"@,
        None => false,
    }))
}

/// A line that hides the application on `desktop`: `NoDisplay=true`,
/// `Hidden=true`, an `OnlyShowIn` that does not list the desktop, or a
/// `NotShowIn` that does.
pub open spec fn hiding_line(key: Seq<char>, value: Seq<char>, desktop: Seq<char>) -> bool {
    ||| (key == "NoDisplay"@ || key == "Hidden"@) && value == "true"@
    ||| key == "OnlyShowIn"@ && !desktop_listed(value, desktop)
    ||| key == "NotShowIn"@ && desktop_listed(value, desktop)
}

/// Some line of a `[Desktop Entry]` section of `ls` hides the application.
pub open spec fn hides(ls: Seq<Seq<char>>, desktop: Seq<char>) -> bool
    decreases ls.len(),
{
    ls.len() > 0 && (hides(ls.drop_last(), desktop) || (in_entry_section(ls.drop_last())
        && match key_value(ls.last()) {
        Some(kv) => hiding_line(kv.0, kv.1, desktop),
        None => false,
    }))
}

pub open spec fn or_empty(o: Option<Seq<char>>) -> Seq<char> {
    match o {
        Some(v) => v,
        None => Seq::empty(),
    }
}

/// The action that the section `ls` end in describes, where it is a
/// `[Desktop Action ...]` section: its id from the header, its name
/// (localised in that section), command and icon from the last lines for
/// them; no action otherwise.
pub open spec fn current_action(ls: Seq<Seq<char>>, locs: Seq<LocaleView>) -> ActionView {
    if in_action_section(ls) {
        let h = or_empty(section_header(ls));
        ActionView {
            id: replace_all(replace_all(h, "[Desktop Action"@, Seq::empty()), "]"@, Seq::empty()),
            name: match section_value(ls, "Name"@) {
                Some(v) => localised_or(locs, strip_brackets(h), "Name"@, v),
                None => Seq::empty(),
            },
            command: or_empty(section_value(ls, "Exec"@)),
            icon: section_value(ls, "Icon"@),
        }
    } else {
        no_action()
    }
}

/// The actions of the `[Desktop Action ...]` sections of `ls` that another
/// section follows, in order, those with a name and a command.
pub open spec fn closed_actions(ls: Seq<Seq<char>>, locs: Seq<LocaleView>) -> Seq<ActionView>
    decreases ls.len(),
{
    if ls.len() == 0 {
        Seq::empty()
    } else {
        let prev = closed_actions(ls.drop_last(), locs);
        let a = current_action(ls.drop_last(), locs);
        if is_header(ls.last()) && in_action_section(ls.drop_last()) && a.name.len() > 0
            && a.command.len() > 0 {
            prev.push(a)
        } else {
            prev
        }
    }
}

/// The application that the lines `ls` describe, with the actions of the
/// sections closed so far: each field the last value given for it in a
/// `[Desktop Entry]` section, the name, comment and keywords localised.
pub open spec fn entry_app(
    ls: Seq<Seq<char>>,
    location: Seq<char>,
    is_flatpak: bool,
    locs: Seq<LocaleView>,
) -> AppView {
    AppView {
        location,
        name: match entry_value(ls, "Name"@) {
            Some(v) => localised_or(locs, "Desktop Entry"@, "Name"@, v),
            None => Seq::empty(),
        },
        command: or_empty(entry_value(ls, "Exec"@)),
        tryexec: or_empty(entry_value(ls, "TryExec"@)),
        comment: match entry_value(ls, "Comment"@) {
            Some(v) => Some(localised_or(locs, "Desktop Entry"@, "Comment"@, v)),
            None => None,
        },
        keywords: match entry_value(ls, "Keywords"@) {
            Some(v) => localised_or(locs, "Desktop Entry"@, "Keywords"@, v),
            None => Seq::empty(),
        },
        icon: entry_value(ls, "Icon"@),
        is_flatpak,
        actions: closed_actions(ls, locs),
    }
}

/// The application that a desktop entry describes. `locs` is `None` where
/// its key file could not be loaded. The entry is taken only when no line
/// rejects or hides it and it has a `Type`, a `Name` and an `Exec`; the
/// action whose section ends the text is kept if any of its fields is set.
pub open spec fn desktop_entry(
    content: Seq<char>,
    location: Seq<char>,
    desktop: Seq<char>,
    is_flatpak: bool,
    locs: Option<Seq<LocaleView>>,
) -> Option<AppView> {
    match locs {
        None => None,
        Some(l) => {
            let ls = lines(content);
            if rejects(ls) || hides(ls, desktop) || entry_value(ls, "Type"@) is None || entry_value(
                ls,
                "Name"@,
            ) is None || entry_value(ls, "Exec"@) is None {
                None
            } else {
                let app = entry_app(ls, location, is_flatpak, l);
                let last = current_action(ls, l);
                Some(
                    if last != no_action() {
                        AppView { actions: app.actions.push(last), ..app }
                    } else {
                        app
                    },
                )
            }
        },
    }
}

/// A reading of the lines `ls` agrees with what they say.
spec fn scan_agrees(
    st: ScanState,
    ls: Seq<Seq<char>>,
    location: Seq<char>,
    is_flatpak: bool,
    desktop: Seq<char>,
    locs: Seq<LocaleView>,
) -> bool {
    &&& st.rejected == rejects(ls)
    &&& !st.rejected ==> {
        &&& st.in_main == in_entry_section(ls)
        &&& st.in_action == in_action_section(ls)
        &&& st.section == match section_header(ls) {
            Some(h) => strip_brackets(h),
            None => Seq::empty(),
        }
        &&& st.should_hide == hides(ls, desktop)
        &&& st.has_type == entry_value(ls, "Type"@) is Some
        &&& st.has_name == entry_value(ls, "Name"@) is Some
        &&& st.has_exec == entry_value(ls, "Exec"@) is Some
        &&& st.app == entry_app(ls, location, is_flatpak, locs)
        &&& st.action == current_action(ls, locs)
    }
}

proof fn lemma_entry_section_name()
    ensures
        strip_brackets("[Desktop Entry]"@) == "Desktop Entry"@,
        !starts_with("[Desktop Entry]"@, "[Desktop Action"@),
{
    reveal_strlit("[Desktop Entry]");
    reveal_strlit("Desktop Entry");
    reveal_strlit("[Desktop Action");
    assert("[Desktop Entry]"@.take(15)[9] != "[Desktop Action"@[9]);
    reveal_with_fuel(strip_brackets, 16);
    assert(strip_brackets("[Desktop Entry]"@) =~= "Desktop Entry"@);
}

proof fn lemma_scan_agrees(
    ls: Seq<Seq<char>>,
    location: Seq<char>,
    is_flatpak: bool,
    desktop: Seq<char>,
    locs: Seq<LocaleView>,
)
    ensures
        scan_agrees(
            scan_lines(scan_start(location, is_flatpak), ls, desktop, locs),
            ls,
            location,
            is_flatpak,
            desktop,
            locs,
        ),
    decreases ls.len(),
{
    if ls.len() == 0 {
        assert(entry_app(ls, location, is_flatpak, locs) == scan_start(location, is_flatpak).app);
    } else {
        let prev = ls.drop_last();
        lemma_scan_agrees(prev, location, is_flatpak, desktop, locs);
        lemma_entry_section_name();
        reveal_strlit("Type");
        reveal_strlit("NoDisplay");
        reveal_strlit("Hidden");
        reveal_strlit("OnlyShowIn");
        reveal_strlit("NotShowIn");
        reveal_strlit("Name");
        reveal_strlit("Exec");
        reveal_strlit("TryExec");
        reveal_strlit("Icon");
        reveal_strlit("Comment");
        reveal_strlit("Keywords");
        assert("Type"@.len() == 4 && "Type"@[0] == 'T');
        assert("NoDisplay"@.len() == 9 && "NoDisplay"@[0] == 'N');
        assert("Hidden"@.len() == 6 && "Hidden"@[0] == 'H');
        assert("OnlyShowIn"@.len() == 10 && "OnlyShowIn"@[0] == 'O');
        assert("NotShowIn"@.len() == 9 && "NotShowIn"@[0] == 'N');
        assert("Name"@.len() == 4 && "Name"@[0] == 'N');
        assert("Exec"@.len() == 4 && "Exec"@[0] == 'E');
        assert("TryExec"@.len() == 7 && "TryExec"@[0] == 'T');
        assert("Icon"@.len() == 4 && "Icon"@[0] == 'I');
        assert("Comment"@.len() == 7 && "Comment"@[0] == 'C');
        assert("Keywords"@.len() == 8 && "Keywords"@[0] == 'K');
        assert("NoDisplay"@[2] != "NotShowIn"@[2]);
        let st = scan_lines(scan_start(location, is_flatpak), prev, desktop, locs);
        let raw = ls.last();
        let line = trim(raw);
        let next = scan_line(st, raw, desktop, locs);
        assert(scan_lines(scan_start(location, is_flatpak), ls, desktop, locs) == next);
        if !st.rejected && line.len() > 0 && line[0] != '#' {
            if line[0] == '[' {
                assert(is_header(raw));
                assert(section_header(ls) == Some(line));
                assert(section_value(ls, "Name"@) is None);
                assert(section_value(ls, "Exec"@) is None);
                assert(section_value(ls, "Icon"@) is None);
                assert(!in_action_section(prev) ==> st.action == no_action());
                assert(next.app == entry_app(ls, location, is_flatpak, locs));
                assert(next.action == current_action(ls, locs));
            } else {
                assert(!is_header(raw));
                assert(section_header(ls) == section_header(prev));
                assert(closed_actions(ls, locs) == closed_actions(prev, locs));
                match split_once(line, '=') {
                    None => {
                        assert(key_value(raw) is None);
                        assert(next.app == entry_app(ls, location, is_flatpak, locs));
                        assert(next.action == current_action(ls, locs));
                    },
                    Some((k, v)) => {
                        let key = trim(k);
                        let value = trim(v);
                        assert(key_value(raw) == Some((key, value)));
                        if !next.rejected {
                            assert(!st.rejected);
                            lemma_entry_step(ls, locs);
                            let cur = entry_app(ls, location, is_flatpak, locs);
                            if st.in_main {
                                assert(!in_action_section(prev));
                                assert(!in_action_section(ls));
                                assert(next == scan_main_entry(st, key, value, desktop, locs));
                                assert(next.app == cur);
                                assert(next.action == current_action(ls, locs));
                            } else if st.in_action {
                                assert(!in_entry_section(ls));
                                assert(next == scan_action_entry(st, key, value, locs));
                                assert(section_value(ls, key) == Some(value));
                                assert(next.app == cur);
                                assert(next.action == current_action(ls, locs));
                            } else {
                                assert(next == st);
                                assert(next.app == cur);
                                assert(next.action == current_action(ls, locs));
                            }
                        }
                    },
                }
            }
        } else {
            assert(!st.rejected ==> !is_header(raw) && key_value(raw) is None);
        }
    }
}

/// What one more `key=value` line changes of the entry's fields.
proof fn lemma_entry_step(ls: Seq<Seq<char>>, locs: Seq<LocaleView>)
    requires
        ls.len() > 0,
        key_value(ls.last()) is Some,
    ensures
        ({
            let prev = ls.drop_last();
            let kv = key_value(ls.last())->0;
            let main = in_entry_section(prev);
            &&& forall|key: Seq<char>|
                #[trigger] entry_value(ls, key) == if kv.0 == key && main {
                    Some(kv.1)
                } else {
                    entry_value(prev, key)
                }
            &&& forall|key: Seq<char>|
                #[trigger] section_value(ls, key) == if kv.0 == key {
                    Some(kv.1)
                } else {
                    section_value(prev, key)
                }
            &&& section_header(ls) == section_header(prev)
            &&& closed_actions(ls, locs) == closed_actions(prev, locs)
        }),
{
    let prev = ls.drop_last();
    let kv = key_value(ls.last())->0;
    assert(!is_header(ls.last()));
    assert forall|key: Seq<char>| #[trigger] entry_value(ls, key) == if kv.0 == key
        && in_entry_section(prev) {
        Some(kv.1)
    } else {
        entry_value(prev, key)
    } by {}
    assert forall|key: Seq<char>| #[trigger] section_value(ls, key) == if kv.0 == key {
        Some(kv.1)
    } else {
        section_value(prev, key)
    } by {}
}

/// Reading a desktop entry line by line gives what it says.
proof fn lemma_scanned_entry(
    content: Seq<char>,
    location: Seq<char>,
    desktop: Seq<char>,
    is_flatpak: bool,
    locs: Option<Seq<LocaleView>>,
)
    ensures
        scanned_entry(content, location, desktop, is_flatpak, locs) == desktop_entry(
            content,
            location,
            desktop,
            is_flatpak,
            locs,
        ),
{
    if let Some(l) = locs {
        lemma_scan_agrees(lines(content), location, is_flatpak, desktop, l);
    }
}

// ---------------------------------------------------------------------------
// Reading a desktop entry.
/// Whether `key` is the text of the literal `lit`.
fn is_lit(key: &Vec<char>, lit: &str) -> (r: bool)
    ensures
        r == (key@ == lit@),
{
    let l = chars_of(lit);
    chars_eq(key, &l)
}

/// The localised value of `key` in `group`.
fn find_locale(locs: &Vec<LocaleEntry>, group: &Vec<char>, key: &str) -> (r: Option<Vec<char>>)
    ensures
        match r {
            Some(v) => lookup_locale(locales_view(locs@), group@, key@) == Some(v@),
            None => lookup_locale(locales_view(locs@), group@, key@) is None,
        },
{
    let ghost lv = locales_view(locs@);
    let mut i: usize = 0;
    assert(lv.skip(0) == lv);
    while i < locs.len()
        invariant
            i <= locs.len(),
            lv == locales_view(locs@),
            lookup_locale(lv, group@, key@) == lookup_locale(lv.skip(i as int), group@, key@),
        decreases locs.len() - i,
    {
        let e = &locs[i];
        assert(lv.skip(i as int)[0] == e@);
        assert(lv.skip(i as int).drop_first() == lv.skip(i + 1));
        let g = chars_of_string(&e.group);
        if chars_eq(&g, group) && is_lit(&chars_of_string(&e.key), key) {
            return Some(chars_of_string(&e.value));
        }
        i = i + 1;
    }
    None
}

/// The localised value of `key` in `group`, or `fallback`.
fn locale_or(locs: &Vec<LocaleEntry>, group: &Vec<char>, key: &str, fallback: &Vec<char>) -> (r:
    String)
    ensures
        r@ == localised_or(locales_view(locs@), group@, key@, fallback@),
{
    match find_locale(locs, group, key) {
        Some(v) => string_from_chars(&v),
        None => string_from_chars(fallback),
    }
}

/// Whether `desktop` is one of the `;`-separated names in `list`.
pub fn is_desktop_listed(list: &Vec<char>, desktop: &Vec<char>) -> (r: bool)
    ensures
        r == desktop_listed(list@, desktop@),
{
    let parts = split_chars(list, ';');
    let ghost pv = parts.deep_view();
    let mut i: usize = 0;
    while i < parts.len()
        invariant
            i <= parts.len(),
            pv == parts.deep_view(),
            pv == split_on(list@, ';'),
            forall|k: int| 0 <= k < i ==> pv[k] != desktop@ || desktop@.len() == 0,
        decreases parts.len() - i,
    {
        assert(parts[i as int]@ == pv[i as int]);
        if parts[i].len() > 0 && chars_eq(&parts[i], desktop) {
            assert(pv[i as int] == desktop@);
            return true;
        }
        i = i + 1;
    }
    false
}

fn strip_brackets_of(s: &Vec<char>) -> (r: Vec<char>)
    ensures
        r@ == strip_brackets(s@),
{
    let mut out: Vec<char> = Vec::new();
    let mut i: usize = 0;
    assert(s@.take(0) == Seq::<char>::empty());
    while i < s.len()
        invariant
            i <= s.len(),
            out@ == strip_brackets(s@.take(i as int)),
        decreases s.len() - i,
    {
        assert(s@.take(i + 1).drop_last() == s@.take(i as int));
        if s[i] != '[' && s[i] != ']' {
            out.push(s[i]);
        }
        i = i + 1;
    }
    assert(s@.take(s.len() as int) == s@);
    out
}

fn empty_action() -> (r: AppAction)
    ensures
        r@ == no_action(),
{
    AppAction { id: String::new(), name: String::new(), command: String::new(), icon: None }
}

/// The reading of a desktop entry in progress.
struct DesktopScan {
    app: App,
    action: AppAction,
    in_main: bool,
    in_action: bool,
    has_name: bool,
    has_exec: bool,
    has_type: bool,
    should_hide: bool,
    rejected: bool,
    section: Vec<char>,
}

impl View for DesktopScan {
    type V = ScanState;

    closed spec fn view(&self) -> ScanState {
        ScanState {
            app: self.app@,
            action: self.action@,
            in_main: self.in_main,
            in_action: self.in_action,
            has_name: self.has_name,
            has_exec: self.has_exec,
            has_type: self.has_type,
            should_hide: self.should_hide,
            rejected: self.rejected,
            section: self.section@,
        }
    }
}

impl DesktopScan {
    fn start(location: &str, is_flatpak: bool) -> (r: DesktopScan)
        ensures
            r@ == scan_start(location@, is_flatpak),
    {
        let r = DesktopScan {
            app: App {
                location: location.to_owned(),
                name: String::new(),
                command: String::new(),
                tryexec: String::new(),
                comment: None,
                keywords: String::new(),
                icon: None,
                is_flatpak,
                actions: Vec::new(),
            },
            action: empty_action(),
            in_main: false,
            in_action: false,
            has_name: false,
            has_exec: false,
            has_type: false,
            should_hide: false,
            rejected: false,
            section: Vec::new(),
        };
        assert(r@.app.actions =~= Seq::<ActionView>::empty());
        assert(r@ == scan_start(location@, is_flatpak));
        r
    }

    fn header(&mut self, line: &Vec<char>)
        ensures
            final(self)@ == scan_header(old(self)@, line@),
    {
        let ghost st = self@;
        if self.in_action {
            let mut done = empty_action();
            std::mem::swap(&mut done, &mut self.action);
            if !done.name.as_str().is_empty() && !done.command.as_str().is_empty() {
                let ghost before = self.app.actions@;
                self.app.actions.push(done);
                assert(self.app.actions@.map_values(|a: AppAction| a@) =~= before.map_values(
                    |a: AppAction| a@,
                ).push(st.action));
            }
        }
        let in_action = has_prefix(line, &chars_of("[Desktop Action"));
        if in_action {
            let empty: Vec<char> = Vec::new();
            proof {
                reveal_strlit("[Desktop Action");
                reveal_strlit("]");
            }
            let first = replace_chars_lit(line, "[Desktop Action", &empty);
            let id = replace_chars_lit(&first, "]", &empty);
            self.action.id = string_from_chars(&id);
        }
        self.in_main = is_lit(line, "[Desktop Entry]");
        self.in_action = in_action;
        self.section = strip_brackets_of(line);
    }

    fn main_entry(
        &mut self,
        key: &Vec<char>,
        value: &Vec<char>,
        desktop: &Vec<char>,
        locs: &Vec<LocaleEntry>,
    )
        ensures
            final(self)@ == scan_main_entry(old(self)@, key@, value@, desktop@, locales_view(locs@)),
    {
        if is_lit(key, "Type") {
            if !is_lit(value, "Application") {
                self.rejected = true;
            } else {
                self.has_type = true;
            }
        } else if is_lit(key, "NoDisplay") || is_lit(key, "Hidden") {
            if is_lit(value, "true") {
                self.should_hide = true;
            }
        } else if is_lit(key, "OnlyShowIn") {
            if !is_desktop_listed(value, desktop) {
                self.should_hide = true;
            }
        } else if is_lit(key, "NotShowIn") {
            if is_desktop_listed(value, desktop) {
                self.should_hide = true;
            }
        } else if is_lit(key, "Name") {
            self.app.name = locale_or(locs, &chars_of("Desktop Entry"), "Name", value);
            self.has_name = true;
        } else if is_lit(key, "Exec") {
            self.app.command = string_from_chars(value);
            self.has_exec = true;
        } else if is_lit(key, "TryExec") {
            self.app.tryexec = string_from_chars(value);
        } else if is_lit(key, "Icon") {
            self.app.icon = Some(string_from_chars(value));
        } else if is_lit(key, "Comment") {
            self.app.comment = Some(locale_or(locs, &self.section, "Comment", value));
        } else if is_lit(key, "Keywords") {
            self.app.keywords = locale_or(locs, &self.section, "Keywords", value);
        }
    }

    fn action_entry(&mut self, key: &Vec<char>, value: &Vec<char>, locs: &Vec<LocaleEntry>)
        ensures
            final(self)@ == scan_action_entry(old(self)@, key@, value@, locales_view(locs@)),
    {
        if is_lit(key, "Name") {
            self.action.name = locale_or(locs, &self.section, "Name", value);
        } else if is_lit(key, "Icon") {
            self.action.icon = Some(string_from_chars(value));
        } else if is_lit(key, "Exec") {
            self.action.command = string_from_chars(value);
        }
    }

    fn line(&mut self, raw: &Vec<char>, desktop: &Vec<char>, locs: &Vec<LocaleEntry>)
        ensures
            final(self)@ == scan_line(old(self)@, raw@, desktop@, locales_view(locs@)),
    {
        let line = trim_chars(raw);
        if self.rejected || line.len() == 0 || line[0] == '#' {
            return;
        }
        if line[0] == '[' {
            self.header(&line);
            return;
        }
        match split_once_at(&line, '=') {
            None => {},
            Some((k, v)) => {
                let key = trim_chars(&k);
                let value = trim_chars(&v);
                if self.in_main {
                    self.main_entry(&key, &value, desktop, locs);
                }
                if self.in_action {
                    self.action_entry(&key, &value, locs);
                }
            },
        }
    }
}

fn replace_chars_lit(s: &Vec<char>, pat: &str, rep: &Vec<char>) -> (r: Vec<char>)
    requires
        pat@.len() > 0,
    ensures
        r@ == replace_all(s@, pat@, rep@),
{
    let p = chars_of(pat);
    replace_chars(s, &p, rep)
}

/// Reads the desktop entry `content`, found at `location`, for the desktop
/// `current_desktop`. `locales` holds what the entry's key file gives in the
/// current locale, or is `None` where that key file could not be loaded.
pub fn parse_desktop_entry(
    content: &str,
    location: &str,
    current_desktop: &str,
    is_flatpak: bool,
    locales: Option<&Vec<LocaleEntry>>,
) -> (r: Option<App>)
    ensures
        match r {
            Some(app) => desktop_entry(
                content@,
                location@,
                current_desktop@,
                is_flatpak,
                match locales {
                    Some(l) => Some(locales_view(l@)),
                    None => None,
                },
            ) == Some(app@),
            None => desktop_entry(
                content@,
                location@,
                current_desktop@,
                is_flatpak,
                match locales {
                    Some(l) => Some(locales_view(l@)),
                    None => None,
                },
            ) is None,
        },
{
    proof {
        lemma_scanned_entry(
            content@,
            location@,
            current_desktop@,
            is_flatpak,
            match locales {
                Some(l) => Some(locales_view(l@)),
                None => None,
            },
        );
    }
    let locs = match locales {
        Some(l) => l,
        None => return None,
    };
    let text = chars_of(content);
    let desktop = chars_of(current_desktop);
    let ls = lines_of(&text);
    let ghost lv = ls.deep_view();
    let ghost lw = locales_view(locs@);
    let mut st = DesktopScan::start(location, is_flatpak);
    let ghost init = st@;
    let mut i: usize = 0;
    assert(lv.take(0) =~= Seq::<Seq<char>>::empty());
    while i < ls.len()
        invariant
            i <= ls.len(),
            lv == ls.deep_view(),
            lw == locales_view(locs@),
            init == scan_start(location@, is_flatpak),
            desktop@ == current_desktop@,
            st@ == scan_lines(init, lv.take(i as int), desktop@, lw),
        decreases ls.len() - i,
    {
        assert(ls[i as int]@ == lv[i as int]);
        assert(lv.take(i + 1).drop_last() =~= lv.take(i as int));
        st.line(&ls[i], &desktop, locs);
        i = i + 1;
    }
    assert(lv.take(ls.len() as int) =~= lv);
    if !st.rejected && !st.should_hide && st.has_name && st.has_exec && st.has_type {
        let a = &st.action;
        let is_blank = a.id.as_str().is_empty() && a.name.as_str().is_empty()
            && a.command.as_str().is_empty() && a.icon.is_none();
        let mut app = st.app;
        if !is_blank {
            let ghost before = app.actions@;
            app.actions.push(st.action);
            assert(app.actions@.map_values(|x: AppAction| x@) =~= before.map_values(
                |x: AppAction| x@,
            ).push(st@.action));
        } else {
            assert(st@.action.id =~= Seq::<char>::empty());
            assert(st@.action.name =~= Seq::<char>::empty());
            assert(st@.action.command =~= Seq::<char>::empty());
        }
        Some(app)
    } else {
        None
    }
}


/// A desktop entry file as read from an applications folder: where it is,
/// its text, and what its key file gives in the current locale (`None`
/// where the key file could not be loaded).
#[derive(Debug, Clone)]
pub struct DesktopFile {
    pub location: String,
    pub content: String,
    pub locales: Option<Vec<LocaleEntry>>,
}

pub open spec fn locales_of(f: DesktopFile) -> Option<Seq<LocaleView>> {
    match f.locales {
        Some(l) => Some(locales_view(l@)),
        None => None,
    }
}

/// The applications that the desktop entry files `files` of one folder
/// describe, in the order of the files: those that `desktop_entry` takes.
pub open spec fn desktop_apps_of(files: Seq<DesktopFile>, desktop: Seq<char>, is_flatpak: bool) -> Seq<
    AppView,
>
    decreases files.len(),
{
    if files.len() == 0 {
        Seq::empty()
    } else {
        let prev = desktop_apps_of(files.drop_last(), desktop, is_flatpak);
        let f = files.last();
        match desktop_entry(f.content@, f.location@, desktop, is_flatpak, locales_of(f)) {
            Some(a) => prev.push(a),
            None => prev,
        }
    }
}

/// The applications described by the desktop entry files of one folder,
/// which holds Flatpak applications where `is_flatpak`, for `current_desktop`.
pub fn desktop_apps(files: &Vec<DesktopFile>, current_desktop: &str, is_flatpak: bool) -> (r: Vec<
    App,
>)
    ensures
        r@.map_values(|a: App| a@) == desktop_apps_of(files@, current_desktop@, is_flatpak),
{
    let mut out: Vec<App> = Vec::new();
    let mut i: usize = 0;
    assert(files@.take(0) =~= Seq::<DesktopFile>::empty());
    while i < files.len()
        invariant
            i <= files.len(),
            out@.map_values(|a: App| a@) == desktop_apps_of(
                files@.take(i as int),
                current_desktop@,
                is_flatpak,
            ),
        decreases files.len() - i,
    {
        let f = &files[i];
        assert(files@.take(i + 1).drop_last() =~= files@.take(i as int));
        assert(files@.take(i + 1).last() == *f);
        let locales = match &f.locales {
            Some(l) => Some(l),
            None => None,
        };
        let parsed = parse_desktop_entry(
            f.content.as_str(),
            f.location.as_str(),
            current_desktop,
            is_flatpak,
            locales,
        );
        match parsed {
            Some(app) => {
                let ghost before = out@.map_values(|a: App| a@);
                out.push(app);
                assert(out@.map_values(|a: App| a@) =~= before.push(app@));
            },
            None => {},
        }
        i = i + 1;
    }
    assert(files@.take(files.len() as int) =~= files@);
    out
}

/// An application read from a desktop entry keeps the entry's location and
/// whether it came from a Flatpak folder.
pub proof fn law_entry_origin(
    content: Seq<char>,
    location: Seq<char>,
    desktop: Seq<char>,
    is_flatpak: bool,
    locs: Option<Seq<LocaleView>>,
)
    ensures
        desktop_entry(content, location, desktop, is_flatpak, locs) matches Some(app) ==> app.location
            == location && app.is_flatpak == is_flatpak,
{
}

proof fn lemma_split_no_sep(d: Seq<char>, sep: char)
    requires
        !d.contains(sep),
    ensures
        split_on(d, sep) == seq![d],
    decreases d.len(),
{
    if d.len() > 0 {
        assert(!d.drop_last().contains(sep)) by {
            if d.drop_last().contains(sep) {
                let k = choose|k: int| 0 <= k < d.drop_last().len() && d.drop_last()[k] == sep;
                assert(d[k] == sep);
            }
        }
        lemma_split_no_sep(d.drop_last(), sep);
        assert(d.last() != sep) by {
            assert(d[d.len() - 1] == d.last());
        }
        assert(d.drop_last().push(d.last()) =~= d);
        assert(seq![d.drop_last()].update(0, d.drop_last().push(d.last())) =~= seq![d]);
    } else {
        assert(d =~= Seq::<char>::empty());
    }
}

proof fn lemma_split_concat(x: Seq<char>, y: Seq<char>, sep: char)
    ensures
        split_on(x + seq![sep] + y, sep) == split_on(x, sep) + split_on(y, sep),
    decreases y.len(),
{
    let w = x + seq![sep] + y;
    if y.len() == 0 {
        assert(w.drop_last() =~= x);
        assert(split_on(x, sep).push(Seq::<char>::empty()) =~= split_on(x, sep) + split_on(y, sep));
    } else {
        lemma_split_concat(x, y.drop_last(), sep);
        assert(w.drop_last() =~= x + seq![sep] + y.drop_last());
        assert(w.last() == y.last());
        let px = split_on(x, sep);
        let py = split_on(y.drop_last(), sep);
        if y.last() == sep {
            assert((px + py).push(Seq::<char>::empty()) =~= px + py.push(Seq::<char>::empty()));
        } else {
            lemma_split_len_pos(y.drop_last(), sep);
            let pp = px + py;
            assert(pp.last() == py.last());
            assert(pp.update(pp.len() - 1, pp.last().push(y.last())) =~= px + py.update(
                py.len() - 1,
                py.last().push(y.last()),
            ));
        }
    }
}

proof fn lemma_split_len_pos(s: Seq<char>, sep: char)
    ensures
        split_on(s, sep).len() >= 1,
    decreases s.len(),
{
    if s.len() > 0 {
        lemma_split_len_pos(s.drop_last(), sep);
    }
}

/// A desktop is listed wherever it stands in a `;`-separated list: a
/// non-empty name without `;`, with the list's start or a `;` before it and
/// the list's end or a `;` after it, is listed.
pub proof fn law_listed_anywhere(a: Seq<char>, desktop: Seq<char>, b: Seq<char>)
    requires
        desktop.len() > 0,
        !desktop.contains(';'),
        a.len() == 0 || a.last() == ';',
        b.len() == 0 || b[0] == ';',
    ensures
        desktop_listed(a + desktop + b, desktop),
{
    lemma_split_no_sep(desktop, ';');
    // The pieces of `desktop + b` start with `desktop`.
    let tail = desktop + b;
    if b.len() == 0 {
        assert(tail =~= desktop);
    } else {
        assert(tail =~= desktop + seq![';'] + b.drop_first());
        lemma_split_concat(desktop, b.drop_first(), ';');
    }
    assert(split_on(tail, ';')[0] == desktop);
    lemma_split_len_pos(tail, ';');
    if a.len() == 0 {
        assert(a + desktop + b =~= tail);
        assert(split_on(tail, ';').contains(desktop));
    } else {
        let a0 = a.drop_last();
        assert(a + desktop + b =~= a0 + seq![';'] + tail);
        lemma_split_concat(a0, tail, ';');
        let all = split_on(a0, ';') + split_on(tail, ';');
        assert(all[split_on(a0, ';').len() as int] == desktop);
        assert(all.contains(desktop));
    }
}

/// A `NotShowIn` line of a `[Desktop Entry]` section that names the current
/// desktop anywhere in its list keeps the entry from being taken.
pub proof fn law_not_show_in_hides(
    content: Seq<char>,
    location: Seq<char>,
    desktop: Seq<char>,
    is_flatpak: bool,
    locs: Option<Seq<LocaleView>>,
    i: int,
    a: Seq<char>,
    b: Seq<char>,
)
    requires
        0 <= i < lines(content).len(),
        in_entry_section(lines(content).take(i)),
        key_value(lines(content)[i]) == Some(("NotShowIn"@, a + desktop + b)),
        desktop.len() > 0,
        !desktop.contains(';'),
        a.len() == 0 || a.last() == ';',
        b.len() == 0 || b[0] == ';',
    ensures
        desktop_entry(content, location, desktop, is_flatpak, locs) is None,
{
    let ls = lines(content);
    law_listed_anywhere(a, desktop, b);
    reveal_strlit("NotShowIn");
    assert(ls.take(i + 1).drop_last() =~= ls.take(i));
    assert(ls.take(i + 1).last() == ls[i]);
    assert(hiding_line("NotShowIn"@, a + desktop + b, desktop));
    assert(hides(ls.take(i + 1), desktop));
    lemma_flags_persist(ls, i + 1, desktop);
}

/// An `OnlyShowIn` line that names the current desktop anywhere in its
/// list does not hide the entry.
pub proof fn law_only_show_in_shows(a: Seq<char>, desktop: Seq<char>, b: Seq<char>)
    requires
        desktop.len() > 0,
        !desktop.contains(';'),
        a.len() == 0 || a.last() == ';',
        b.len() == 0 || b[0] == ';',
    ensures
        !hiding_line("OnlyShowIn"@, a + desktop + b, desktop),
{
    law_listed_anywhere(a, desktop, b);
    reveal_strlit("OnlyShowIn");
    reveal_strlit("NoDisplay");
    reveal_strlit("Hidden");
    reveal_strlit("NotShowIn");
    assert("OnlyShowIn"@.len() == 10 && "NoDisplay"@.len() == 9 && "Hidden"@.len() == 6
        && "NotShowIn"@.len() == 9);
}

/// Once the lines read so far reject the entry (a `Type` other than
/// `Application`) or hide it (`NoDisplay`, `Hidden`, `OnlyShowIn`,
/// `NotShowIn`), no later line brings it back: the entry is not taken.
pub proof fn law_hidden_stays_hidden(
    content: Seq<char>,
    location: Seq<char>,
    desktop: Seq<char>,
    is_flatpak: bool,
    locs: Seq<LocaleView>,
    k: int,
)
    requires
        0 <= k <= lines(content).len(),
        rejects(lines(content).take(k)) || hides(lines(content).take(k), desktop),
    ensures
        desktop_entry(content, location, desktop, is_flatpak, Some(locs)) is None,
{
    lemma_flags_persist(lines(content), k, desktop);
}

proof fn lemma_flags_persist(ls: Seq<Seq<char>>, k: int, desktop: Seq<char>)
    requires
        0 <= k <= ls.len(),
    ensures
        rejects(ls.take(k)) ==> rejects(ls),
        hides(ls.take(k), desktop) ==> hides(ls, desktop),
    decreases ls.len(),
{
    if k < ls.len() {
        lemma_flags_persist(ls.drop_last(), k, desktop);
        assert(ls.drop_last().take(k) =~= ls.take(k));
    } else {
        assert(ls.take(k) =~= ls);
    }
}

} // verus!
