//! tmux sessions, windows and panes as targets: `tmux://session`,
//! `tmux://session/window`, `tmux://session/window/pane` and tmux ids such as
//! `tmux://%3`.
use vstd::prelude::*;

use crate::created::{tmux_created, tmux_time_readable};
use crate::keys::{
    all_modifiers, is_alt, is_alt_word, is_ctrl, is_ctrl_word, is_modifier_word, is_shift,
    is_shift_word, modifier_parts,
};
use crate::target::{string_views, Target};
use crate::text::{
    all_digits, chars_are, contains, contains_seq, is_ascii_digit, is_digit, lines, lines_of,
    push_chars, rfind, rfind_char, slice_chars, split_on_char, split_once, split_once_char,
    split_once_str, splitn, splitn_on, str_chars, string_from, trim, trim_str, views,
};

verus! {

/// The backend for `tmux://` targets.
pub struct TmuxBackend;

/// What a tmux target names.
#[derive(Debug, Clone, Copy, PartialEq, Eq, Structural)]
pub enum TargetKind {
    Session,
    Window,
    Pane,
}

/// A target path in tmux's own target syntax, with what it names.
pub struct ResolvedTarget {
    pub target: String,
    pub kind: TargetKind,
}

// ---------------------------------------------------------------------------
// Specification
// ---------------------------------------------------------------------------

/// A tmux id: `$` (session), `@` (window) or `%` (pane) and then digits.
pub open spec fn spec_is_tmux_id(s: Seq<char>) -> bool {
    s.len() > 0 && (s[0] == '$' || s[0] == '@' || s[0] == '%') && all_digits(s.drop_first())
}

/// The tmux target of a path and its kind: an id is used as it is;
/// `s` names a session, `s/w` the window `s:w`, `s/w/p` the pane `s:w.p`.
pub open spec fn spec_resolve_target(path: Seq<char>) -> (Seq<char>, TargetKind) {
    if spec_is_tmux_id(path) {
        (
            path,
            if path[0] == '$' {
                TargetKind::Session
            } else if path[0] == '@' {
                TargetKind::Window
            } else {
                TargetKind::Pane
            },
        )
    } else {
        match split_once(path, seq!['/']) {
            None => (path, TargetKind::Session),
            Some((session, rest)) => match split_once(rest, seq!['/']) {
                None => (session + seq![':'] + rest, TargetKind::Window),
                Some((window, pane)) => (
                    session + seq![':'] + window + seq!['.'] + pane,
                    TargetKind::Pane,
                ),
            },
        }
    }
}

/// tmux's name for a key, where it differs from the xdotool name.
pub open spec fn tmux_key_name(k: Seq<char>) -> Seq<char> {
    if k == "Return"@ || k == "KP_Enter"@ {
        "Enter"@
    } else if k == "BackSpace"@ {
        "BSpace"@
    } else if k == "Delete"@ || k == "KP_Delete"@ {
        "DC"@
    } else if k == "Page_Up"@ || k == "Prior"@ {
        "PPage"@
    } else if k == "Page_Down"@ || k == "Next"@ {
        "NPage"@
    } else if k == "space"@ {
        "Space"@
    } else if k == "ISO_Left_Tab"@ {
        "Tab"@
    } else if k == "Insert"@ {
        "IC"@
    } else {
        k
    }
}

/// tmux's prefix for a modifier: `C-`, `M-`, or `S-` (tmux has no super key).
pub open spec fn tmux_prefix(w: Seq<char>) -> Seq<char> {
    if is_ctrl_word(w) {
        "C-"@
    } else if is_alt_word(w) {
        "M-"@
    } else {
        "S-"@
    }
}

pub open spec fn tmux_prefixes(parts: Seq<Seq<char>>) -> Seq<char>
    decreases parts.len(),
{
    if parts.len() == 0 {
        seq![]
    } else {
        tmux_prefixes(parts.drop_last()) + tmux_prefix(parts.last())
    }
}

/// The tmux form of an xdotool key: `ctrl+x` is `C-x`, `alt+x` is `M-x`,
/// `shift+x` is `S-x`, modifiers in the order written; a combination with a
/// word that is no modifier is kept as it is.
pub open spec fn spec_translate_key(key: Seq<char>) -> Seq<char> {
    match rfind_char(key, '+') {
        None => tmux_key_name(key),
        Some(pos) => {
            let parts = modifier_parts(key, pos);
            if all_modifiers(parts) {
                tmux_prefixes(parts) + tmux_key_name(key.skip(pos + 1))
            } else {
                key
            }
        },
    }
}

/// The fields of the non-empty `list-panes` lines that have all four of them.
pub open spec fn tmux_records(ls: Seq<Seq<char>>) -> Seq<Seq<Seq<char>>>
    decreases ls.len(),
{
    if ls.len() == 0 {
        seq![]
    } else {
        let fields = splitn(ls.last(), 4, ";;"@);
        let rest = tmux_records(ls.drop_last());
        if ls.last().len() > 0 && fields.len() == 4 {
            rest.push(fields)
        } else {
            rest
        }
    }
}

/// A target made from the fields `pane_id;;command;;session_created;;session/window/pane`.
pub open spec fn tmux_target_matches(t: Target, f: Seq<Seq<char>>) -> bool {
    &&& t.url@ == "tmux://"@ + f[3]
    &&& string_views(t.aliases@) == seq!["tmux://"@ + f[0]]
    &&& t.id@ == "tmux://"@ + f[0]
    &&& t.command@ == f[1]
    &&& !tmux_time_readable(f[2]) ==> t.created@ == Seq::<char>::empty()
    &&& tmux_time_readable(f[2]) ==> t.created@.len() > 0
}

pub open spec fn tmux_targets_match(ts: Seq<Target>, stdout: Seq<char>) -> bool {
    let recs = tmux_records(lines(stdout));
    &&& ts.len() == recs.len()
    &&& forall|i: int| 0 <= i < ts.len() ==> #[trigger] tmux_target_matches(ts[i], recs[i])
}

/// Errors of `list-panes` that mean there is simply nothing to list.
pub open spec fn no_tmux_server(stderr: Seq<char>) -> bool {
    contains_seq(stderr, "no server running"@) || contains_seq(stderr, "error connecting"@)
        || contains_seq(stderr, "no current client"@)
}

/// The shell script of the placeholder pane that stands in for a pane while
/// it is attached elsewhere.
pub open spec fn placeholder_script() -> Seq<char> {
    "printf '\\033[2m'; echo 'Pane is attached elsewhere.'; echo ''; echo '  Enter - swap back'; echo '  Esc/q - quit'; printf '\\033[0m'; while true; do   IFS= read -rsn1 key;   case \"$key\" in     '') tmux swap-pane -s \"$1\" -t \"$TMUX_PANE\"; break;;     q) break;;     $'\\x1b') break;;   esac; done"@
}

pub open spec fn pane_id_query(target: Seq<char>) -> Seq<Seq<char>> {
    seq!["display-message"@, "-t"@, target, "-p"@, "#{pane_id}"@]
}

pub open spec fn new_session_args(pane_id: Seq<char>) -> Seq<Seq<char>> {
    seq![
        "new-session"@,
        "-d"@,
        "-P"@,
        "-F"@,
        "#{session_id};;#{pane_id}"@,
        "sh"@,
        "-c"@,
        placeholder_script(),
        "--"@,
        pane_id,
    ]
}

pub open spec fn swap_args(pane_id: Seq<char>, placeholder: Seq<char>) -> Seq<Seq<char>> {
    seq!["swap-pane"@, "-s"@, pane_id, "-t"@, placeholder]
}

pub open spec fn kill_args(session: Seq<char>) -> Seq<Seq<char>> {
    seq!["kill-session"@, "-t"@, session]
}


/// The step of tearing down an isolation of `pane` (lent to `session`, with
/// `placeholder` in its place) that follows `state`, given whether the last
/// run succeeded: the next state and the tmux arguments to run, or `None`
/// when done.
pub open spec fn teardown_next(
    pane: Seq<char>,
    session: Seq<char>,
    placeholder: Seq<char>,
    state: TeardownState,
    succeeded: bool,
) -> Option<(TeardownState, Seq<Seq<char>>)> {
    match state {
        TeardownState::CheckPlaceholder => if succeeded {
            Some((TeardownState::SwapBack, swap_args(pane, placeholder)))
        } else {
            Some((TeardownState::KillSession, kill_args(session)))
        },
        TeardownState::SwapBack => Some((TeardownState::KillSession, kill_args(session))),
        TeardownState::KillSession => None,
    }
}

/// Tearing down swaps the pane back only while its placeholder is alive, and
/// with the same `swap-pane` that setting up ran (swapping two panes twice
/// puts both back); whatever the runs report, it then removes the temporary
/// session and stops.
pub proof fn law_teardown_restores(
    pane: Seq<char>,
    session: Seq<char>,
    placeholder: Seq<char>,
    alive: bool,
    swapped: bool,
    killed: bool,
)
    ensures
        alive ==> teardown_next(pane, session, placeholder, TeardownState::CheckPlaceholder, alive)
            == Some((TeardownState::SwapBack, swap_args(pane, placeholder))),
        !alive ==> teardown_next(pane, session, placeholder, TeardownState::CheckPlaceholder, alive)
            == Some((TeardownState::KillSession, kill_args(session))),
        teardown_next(pane, session, placeholder, TeardownState::SwapBack, swapped) == Some(
            (TeardownState::KillSession, kill_args(session)),
        ),
        teardown_next(pane, session, placeholder, TeardownState::KillSession, killed) is None,
{
}

/// A modifier and a key become tmux's prefix for the modifier and tmux's
/// name for the key; a word before the `+` that is no modifier leaves the
/// key as it was written.
pub proof fn law_translate_modifier(m: Seq<char>, base: Seq<char>)
    requires
        crate::keys::no_plus(m),
        crate::keys::no_plus(base),
    ensures
        is_modifier_word(m) ==> spec_translate_key(m + seq!['+'] + base) == tmux_prefix(m)
            + tmux_key_name(base),
        !is_modifier_word(m) ==> spec_translate_key(m + seq!['+'] + base) == m + seq!['+'] + base,
        is_ctrl_word(m) ==> tmux_prefix(m) == "C-"@,
        is_alt_word(m) ==> tmux_prefix(m) == "M-"@,
        is_shift_word(m) ==> tmux_prefix(m) == "S-"@,
{
    let key = m + seq!['+'] + base;
    crate::keys::lemma_last_plus(m, base);
    crate::keys::lemma_split_no_plus(m);
    crate::keys::lemma_word_kinds_distinct(m);
    let parts = modifier_parts(key, m.len() as int);
    assert(parts == seq![m]);
    if is_modifier_word(m) {
        assert(all_modifiers(parts));
        assert(parts.drop_last() =~= Seq::<Seq<char>>::empty());
        assert(tmux_prefixes(parts.drop_last()) =~= Seq::<char>::empty());
        assert(parts.last() == m);
        assert(tmux_prefixes(parts) =~= tmux_prefix(m));
    } else {
        assert(!is_modifier_word(parts[0]));
    }
}

/// A list of modifiers and a key become tmux's prefixes for the modifiers, in
/// the order written, and tmux's name for the key; a list with a word that is
/// no modifier leaves the key as it was written.
pub proof fn law_translate_modifier_list(ms: Seq<Seq<char>>, base: Seq<char>)
    requires
        ms.len() >= 1,
        crate::keys::all_no_plus(ms),
        crate::keys::no_plus(base),
    ensures
        all_modifiers(ms) ==> spec_translate_key(crate::keys::join_plus(ms) + seq!['+'] + base)
            == tmux_prefixes(ms) + spec_translate_key(base),
        !all_modifiers(ms) ==> spec_translate_key(crate::keys::join_plus(ms) + seq!['+'] + base)
            == crate::keys::join_plus(ms) + seq!['+'] + base,
{
    crate::keys::lemma_combo_parts(ms, base);
    law_translate_plain(base);
}

/// Keys without `+` that tmux names alike pass through unchanged.
pub proof fn law_translate_plain(key: Seq<char>)
    requires
        crate::keys::no_plus(key),
    ensures
        spec_translate_key(key) == tmux_key_name(key),
{
    crate::text::lemma_rfind_char_none(key, '+');
}

/// A key without `+` that is not one of the names tmux spells otherwise goes
/// to tmux as it is (`Tab` stays `Tab`, `Escape` stays `Escape`).
pub proof fn law_translate_unrenamed(key: Seq<char>)
    requires
        crate::keys::no_plus(key),
        key != "Return"@,
        key != "KP_Enter"@,
        key != "BackSpace"@,
        key != "Delete"@,
        key != "KP_Delete"@,
        key != "Page_Up"@,
        key != "Prior"@,
        key != "Page_Down"@,
        key != "Next"@,
        key != "space"@,
        key != "ISO_Left_Tab"@,
        key != "Insert"@,
    ensures
        spec_translate_key(key) == key,
{
    law_translate_plain(key);
}

/// A tmux id begins with `$`, `@` or `%`.
pub proof fn law_tmux_id_sigil(s: Seq<char>)
    ensures
        spec_is_tmux_id(s) ==> s.len() > 0 && (s[0] == '$' || s[0] == '@' || s[0] == '%'),
{
}

/// A path without `/` that does not begin with `$`, `@` or `%` names the
/// session of that name (tmux's default session `0` among them).
pub proof fn law_resolve_session_name(path: Seq<char>)
    requires
        forall|j: int| 0 <= j < path.len() ==> path[j] != '/',
        path.len() == 0 || (path[0] != '$' && path[0] != '@' && path[0] != '%'),
    ensures
        spec_resolve_target(path) == (path, TargetKind::Session),
{
    let pat = seq!['/'];
    assert forall|j: int| 0 <= j && j + pat.len() <= path.len() implies #[trigger] path.subrange(
        j,
        j + pat.len(),
    ) != pat by {
        assert(path.subrange(j, j + pat.len())[0] == path[j]);
    }
    crate::text::lemma_find_seq_none(path, pat);
}

// ---------------------------------------------------------------------------
// Implementation
// ---------------------------------------------------------------------------

/// Whether `s` is a tmux id.
pub fn is_tmux_id(s: &str) -> (r: bool)
    ensures
        r == spec_is_tmux_id(s@),
{
    let v = str_chars(s);
    if v.len() == 0 {
        return false;
    }
    if !(v[0] == '$' || v[0] == '@' || v[0] == '%') {
        return false;
    }
    let mut i: usize = 1;
    while i < v.len()
        invariant
            1 <= i <= v.len(),
            v@ == s@,
            forall|j: int| 1 <= j < i ==> is_ascii_digit(#[trigger] v@[j]),
        decreases v.len() - i,
    {
        if !is_digit(v[i]) {
            assert(!is_ascii_digit(v@.drop_first()[i - 1]));
            return false;
        }
        i += 1;
    }
    assert forall|j: int| 0 <= j < v@.drop_first().len() implies #[trigger] is_ascii_digit(
        v@.drop_first()[j],
    ) by {
        assert(v@.drop_first()[j] == v@[j + 1]);
    }
    true
}

/// A target path in tmux's target syntax.
pub fn resolve_target(path: &str) -> (r: Result<ResolvedTarget, String>)
    ensures
        r matches Ok(t) && (t.target@, t.kind) == spec_resolve_target(path@),
{
    if is_tmux_id(path) {
        let v = str_chars(path);
        let kind = if v[0] == '$' {
            TargetKind::Session
        } else if v[0] == '@' {
            TargetKind::Window
        } else {
            TargetKind::Pane
        };
        return Ok(ResolvedTarget { target: String::from_str(path), kind });
    }
    let v = str_chars(path);
    match split_once_char(&v, '/') {
        None => Ok(ResolvedTarget { target: String::from_str(path), kind: TargetKind::Session }),
        Some((session, rest)) => match split_once_char(&rest, '/') {
            None => {
                let mut t = string_from(&session);
                crate::text::push_char(&mut t, ':');
                push_chars(&mut t, &rest);
                assert(t@ =~= session@ + seq![':'] + rest@);
                Ok(ResolvedTarget { target: t, kind: TargetKind::Window })
            },
            Some((window, pane)) => {
                let mut t = string_from(&session);
                crate::text::push_char(&mut t, ':');
                push_chars(&mut t, &window);
                crate::text::push_char(&mut t, '.');
                push_chars(&mut t, &pane);
                assert(t@ =~= session@ + seq![':'] + window@ + seq!['.'] + pane@);
                Ok(ResolvedTarget { target: t, kind: TargetKind::Pane })
            },
        },
    }
}

fn tmux_name(key: &str) -> (r: String)
    ensures
        r@ == tmux_key_name(key@),
{
    let k = str_chars(key);
    if chars_are(&k, "Return") || chars_are(&k, "KP_Enter") {
        String::from_str("Enter")
    } else if chars_are(&k, "BackSpace") {
        String::from_str("BSpace")
    } else if chars_are(&k, "Delete") || chars_are(&k, "KP_Delete") {
        String::from_str("DC")
    } else if chars_are(&k, "Page_Up") || chars_are(&k, "Prior") {
        String::from_str("PPage")
    } else if chars_are(&k, "Page_Down") || chars_are(&k, "Next") {
        String::from_str("NPage")
    } else if chars_are(&k, "space") {
        String::from_str("Space")
    } else if chars_are(&k, "ISO_Left_Tab") {
        String::from_str("Tab")
    } else if chars_are(&k, "Insert") {
        String::from_str("IC")
    } else {
        String::from_str(key)
    }
}

/// The tmux form of an xdotool key name.
pub fn translate_key(key: &str) -> (r: String)
    ensures
        r@ == spec_translate_key(key@),
{
    let k = str_chars(key);
    proof {
        crate::text::lemma_rfind_char(k@, '+');
    }
    match rfind(&k, '+') {
        None => tmux_name(key),
        Some(pos) => {
            let mods = slice_chars(&k, 0, pos);
            let parts = split_on_char(&mods, '+');
            let ghost ps = views(parts@);
            assert(mods@ =~= k@.take(pos as int));
            assert(ps == modifier_parts(k@, pos as int));
            let mut prefix = String::new();
            let mut i: usize = 0;
            assert(ps.take(0) =~= Seq::<Seq<char>>::empty());
            while i < parts.len()
                invariant
                    ps == views(parts@),
                    k@ == key@,
                    rfind_char(key@, '+') == Some(pos as int),
                    ps == modifier_parts(key@, pos as int),
                    i <= parts.len(),
                    forall|j: int| 0 <= j < i ==> #[trigger] is_modifier_word(ps[j]),
                    prefix@ == tmux_prefixes(ps.take(i as int)),
                decreases parts.len() - i,
            {
                let w = &parts[i];
                assert(w@ == ps[i as int]);
                assert(ps.take(i + 1).drop_last() =~= ps.take(i as int));
                if is_ctrl(w) {
                    prefix.append("C-");
                } else if is_alt(w) {
                    prefix.append("M-");
                } else if is_shift(w) {
                    prefix.append("S-");
                } else {
                    assert(!is_modifier_word(ps[i as int]));
                    assert(!all_modifiers(ps));
                    return String::from_str(key);
                }
                i += 1;
            }
            assert(ps.take(parts.len() as int) =~= ps);
            let base = key.substring_char(pos + 1, k.len());
            assert(base@ =~= k@.skip(pos + 1));
            let name = tmux_name(base);
            prefix.append(name.as_str());
            prefix
        },
    }
}

/// std's `Debug` text of a list of strings (`["a", "b"]`, each string quoted
/// and escaped).
pub uninterp spec fn debug_list_text(items: Seq<Seq<char>>) -> Seq<char>;

/// `format!("{:?}", args)`: calls std's `Debug` of the list, whose text is named
/// `debug_list_text` (it depends on the strings alone).
#[verifier::external_body]
fn debug_text(args: &Vec<String>) -> (r: String)
    ensures
        r@ == debug_list_text(string_views(args@)),
{
    format!("{:?}", args)
}

/// The error of a failed tmux run, given the `Debug` text of its arguments.
pub fn tmux_failure(args_text: &str, stderr: &str) -> (r: String)
    ensures
        r@ == "tmux "@ + args_text@ + " failed: "@ + trim(stderr@),
{
    let mut r = String::from_str("tmux ");
    r.append(args_text);
    r.append(" failed: ");
    let t = trim_str(stderr);
    r.append(t.as_str());
    r
}

/// What a finished tmux run with these arguments gave: its trimmed output, or
/// an error naming the arguments with the trimmed error text.
pub fn run_outcome(args: &Vec<String>, success: bool, stdout: &str, stderr: &str) -> (r: Result<
    String,
    String,
>)
    ensures
        success ==> (r matches Ok(out) && out@ == trim(stdout@)),
        !success ==> (r matches Err(e) && e@ == "tmux "@ + debug_list_text(string_views(args@))
            + " failed: "@ + trim(stderr@)),
{
    if success {
        Ok(trim_str(stdout))
    } else {
        let shown = debug_text(args);
        Err(tmux_failure(shown.as_str(), stderr))
    }
}

fn tmux_target(f: &Vec<Vec<char>>) -> (t: Target)
    requires
        f.len() == 4,
    ensures
        tmux_target_matches(t, views(f@)),
{
    let ghost fs = views(f@);
    assert(fs[0] == f@[0]@ && fs[1] == f@[1]@ && fs[2] == f@[2]@ && fs[3] == f@[3]@);
    let mut url = String::from_str("tmux://");
    push_chars(&mut url, &f[3]);
    let mut id = String::from_str("tmux://");
    push_chars(&mut id, &f[0]);
    let mut aliases: Vec<String> = Vec::new();
    aliases.push(id.clone());
    assert(string_views(aliases@) =~= seq!["tmux://"@ + fs[0]]);
    let ts = string_from(&f[2]);
    let created = tmux_created(ts.as_str());
    Target { url, aliases, id, command: string_from(&f[1]), created }
}

/// The panes in the output of a successful `list-panes`.
pub fn tmux_targets(stdout: &str) -> (r: Vec<Target>)
    ensures
        tmux_targets_match(r@, stdout@),
{
    let v = str_chars(stdout);
    let ls = lines_of(&v);
    let ghost all = views(ls@);
    let mut targets: Vec<Target> = Vec::new();
    let mut i: usize = 0;
    assert(all.take(0) =~= Seq::<Seq<char>>::empty());
    while i < ls.len()
        invariant
            all == views(ls@),
            all == lines(stdout@),
            i <= ls.len(),
            targets@.len() == tmux_records(all.take(i as int)).len(),
            forall|j: int|
                0 <= j < targets@.len() ==> #[trigger] tmux_target_matches(
                    targets@[j],
                    tmux_records(all.take(i as int))[j],
                ),
        decreases ls.len() - i,
    {
        proof {
            reveal_strlit(";;");
        }
        let fields = splitn_on(&ls[i], 4, ";;");
        let ghost prev = tmux_records(all.take(i as int));
        proof {
            assert(all.take(i + 1).drop_last() =~= all.take(i as int));
            assert(all.take(i + 1).last() == ls@[i as int]@);
        }
        if ls[i].len() > 0 && fields.len() == 4 {
            let t = tmux_target(&fields);
            let ghost before = targets@;
            targets.push(t);
            proof {
                assert(tmux_records(all.take(i + 1)) == prev.push(views(fields@)));
                assert forall|j: int| 0 <= j < targets@.len() implies #[trigger] tmux_target_matches(
                    targets@[j],
                    tmux_records(all.take(i + 1))[j],
                ) by {
                    if j < targets@.len() - 1 {
                        assert(targets@[j] == before[j]);
                    }
                }
            }
        } else {
            assert(tmux_records(all.take(i + 1)) == prev);
        }
        i += 1;
    }
    assert(all.take(i as int) =~= all);
    targets
}

/// The panes of `list-panes`; when no tmux server runs there are none, and
/// any other failure is an error.
pub fn tmux_list_outcome(success: bool, stdout: &str, stderr: &str) -> (r: Result<
    Vec<Target>,
    String,
>)
    ensures
        success ==> (r matches Ok(ts) && tmux_targets_match(ts@, stdout@)),
        !success && no_tmux_server(stderr@) ==> (r matches Ok(ts) && ts@.len() == 0),
        !success && !no_tmux_server(stderr@) ==> (r matches Err(e) && e@
            == "tmux list-panes failed: "@ + trim(stderr@)),
{
    if !success {
        let e = str_chars(stderr);
        proof {
            reveal_strlit("no server running");
            reveal_strlit("error connecting");
            reveal_strlit("no current client");
        }
        if contains(&e, "no server running") || contains(&e, "error connecting") || contains(
            &e,
            "no current client",
        ) {
            return Ok(Vec::new());
        }
        let mut msg = String::from_str("tmux list-panes failed: ");
        let t = trim_str(stderr);
        msg.append(t.as_str());
        return Err(msg);
    }
    Ok(tmux_targets(stdout))
}

/// A pane lent to a temporary session for as long as it is attached, with a
/// placeholder pane standing in its place.
pub struct PaneIsolation {
    pub pane_id: String,
    pub temp_session_id: String,
    pub placeholder_pane_id: String,
}

/// Where setting up an isolation stands.
pub enum SetupState {
    /// Asked for the pane's id.
    QueryPane,
    /// Creating the temporary session with the placeholder.
    CreateSession { pane_id: String },
    /// Swapping the pane into the temporary session.
    SwapIn { isolation: PaneIsolation },
}

/// What to do next while setting up an isolation.
pub enum SetupAction {
    /// Run tmux with these arguments and report how it went.
    Run(Vec<String>),
    /// The pane is isolated.
    Finished(PaneIsolation),
    /// Setting up failed with this error.
    Abort(String),
}

/// Where tearing down an isolation stands.
#[derive(Debug, Clone, Copy, PartialEq, Eq, Structural)]
pub enum TeardownState {
    /// Asked whether the placeholder pane is still there.
    CheckPlaceholder,
    /// Swapping the pane back to where it was.
    SwapBack,
    /// Removing the temporary session.
    KillSession,
}

fn strings2(a: &str, b: &str) -> (r: Vec<String>)
    ensures
        string_views(r@) == seq![a@, b@],
        r@.len() == 2,
        r@[0]@ == a@,
        r@[1]@ == b@,
{
    let mut r: Vec<String> = Vec::new();
    r.push(String::from_str(a));
    r.push(String::from_str(b));
    assert(string_views(r@) =~= seq![a@, b@]);
    r
}

fn swap_command(pane_id: &str, placeholder: &str) -> (r: Vec<String>)
    ensures
        string_views(r@) == swap_args(pane_id@, placeholder@),
{
    let mut r = strings2("swap-pane", "-s");
    r.push(String::from_str(pane_id));
    r.push(String::from_str("-t"));
    r.push(String::from_str(placeholder));
    assert(string_views(r@) =~= swap_args(pane_id@, placeholder@));
    r
}

fn kill_command(session: &str) -> (r: Vec<String>)
    ensures
        string_views(r@) == kill_args(session@),
{
    let mut r = strings2("kill-session", "-t");
    r.push(String::from_str(session));
    assert(string_views(r@) =~= kill_args(session@));
    r
}

fn display_pane_id(target: &str) -> (r: Vec<String>)
    ensures
        string_views(r@) == pane_id_query(target@),
{
    let mut r = strings2("display-message", "-t");
    r.push(String::from_str(target));
    r.push(String::from_str("-p"));
    r.push(String::from_str("#{pane_id}"));
    assert(string_views(r@) =~= pane_id_query(target@));
    r
}

impl PaneIsolation {
    /// The first step of isolating the pane `target`: ask for its id.
    pub fn setup_start(target: &str) -> (r: (SetupState, Vec<String>))
        ensures
            r.0 is QueryPane,
            string_views(r.1@) == pane_id_query(target@),
    {
        (SetupState::QueryPane, display_pane_id(target))
    }

    /// The next step of isolating a pane, given how the last tmux run went.
    /// Any failed run aborts with its error.
    pub fn setup_step(state: SetupState, outcome: Result<String, String>) -> (r: (
        Option<SetupState>,
        SetupAction,
    ))
        ensures
            outcome matches Err(e) ==> {
                &&& r.0 is None
                &&& r.1 matches SetupAction::Abort(m) && m == e
            },
            outcome matches Ok(out) ==> match state {
                SetupState::QueryPane => {
                    &&& r.0 matches Some(SetupState::CreateSession { pane_id }) && pane_id@ == out@
                    &&& r.1 matches SetupAction::Run(args) && string_views(args@)
                        == new_session_args(out@)
                },
                SetupState::CreateSession { pane_id } => match split_once(out@, ";;"@) {
                    None => {
                        &&& r.0 is None
                        &&& r.1 matches SetupAction::Abort(m) && m@
                            == "failed to parse temp session output"@
                    },
                    Some((session, placeholder)) => {
                        &&& r.0 matches Some(SetupState::SwapIn { isolation }) && {
                            &&& isolation.pane_id@ == pane_id@
                            &&& isolation.temp_session_id@ == session
                            &&& isolation.placeholder_pane_id@ == placeholder
                        }
                        &&& r.1 matches SetupAction::Run(args) && string_views(args@) == swap_args(
                            pane_id@,
                            placeholder,
                        )
                    },
                },
                SetupState::SwapIn { isolation } => {
                    &&& r.0 is None
                    &&& r.1 matches SetupAction::Finished(iso) && {
                        &&& iso.pane_id@ == isolation.pane_id@
                        &&& iso.temp_session_id@ == isolation.temp_session_id@
                        &&& iso.placeholder_pane_id@ == isolation.placeholder_pane_id@
                    }
                },
            },
    {
        let out = match outcome {
            Ok(o) => o,
            Err(e) => return (None, SetupAction::Abort(e)),
        };
        match state {
            SetupState::QueryPane => {
                let mut args = strings2("new-session", "-d");
                args.push(String::from_str("-P"));
                args.push(String::from_str("-F"));
                args.push(String::from_str("#{session_id};;#{pane_id}"));
                args.push(String::from_str("sh"));
                args.push(String::from_str("-c"));
                args.push(
                    String::from_str(
                        "printf '\\033[2m'; echo 'Pane is attached elsewhere.'; echo ''; echo '  Enter - swap back'; echo '  Esc/q - quit'; printf '\\033[0m'; while true; do   IFS= read -rsn1 key;   case \"$key\" in     '') tmux swap-pane -s \"$1\" -t \"$TMUX_PANE\"; break;;     q) break;;     $'\\x1b') break;;   esac; done",
                    ),
                );
                args.push(String::from_str("--"));
                args.push(out.clone());
                assert(string_views(args@) =~= new_session_args(out@));
                (Some(SetupState::CreateSession { pane_id: out }), SetupAction::Run(args))
            },
            SetupState::CreateSession { pane_id } => {
                let v = str_chars(out.as_str());
                proof {
                    reveal_strlit(";;");
                }
                match split_once_str(&v, ";;") {
                    None => (
                        None,
                        SetupAction::Abort(String::from_str("failed to parse temp session output")),
                    ),
                    Some((session, placeholder)) => {
                        let temp_session_id = string_from(&session);
                        let placeholder_pane_id = string_from(&placeholder);
                        let args = swap_command(pane_id.as_str(), placeholder_pane_id.as_str());
                        (
                            Some(
                                SetupState::SwapIn {
                                    isolation: PaneIsolation {
                                        pane_id,
                                        temp_session_id,
                                        placeholder_pane_id,
                                    },
                                },
                            ),
                            SetupAction::Run(args),
                        )
                    },
                }
            },
            SetupState::SwapIn { isolation } => (None, SetupAction::Finished(isolation)),
        }
    }

    /// The arguments that attach to the temporary session holding the pane.
    pub fn attach_args(&self) -> (r: Vec<String>)
        ensures
            string_views(r@) == seq!["attach-session"@, "-t"@, self.temp_session_id@],
    {
        let mut r = strings2("attach-session", "-t");
        r.push(self.temp_session_id.clone());
        assert(string_views(r@) =~= seq!["attach-session"@, "-t"@, self.temp_session_id@]);
        r
    }

    /// The first step of tearing down: ask whether the placeholder is there.
    pub fn teardown_start(&self) -> (r: (TeardownState, Vec<String>))
        ensures
            r.0 == TeardownState::CheckPlaceholder,
            string_views(r.1@) == pane_id_query(self.placeholder_pane_id@),
    {
        (TeardownState::CheckPlaceholder, display_pane_id(self.placeholder_pane_id.as_str()))
    }

    /// The next step of tearing down, given whether the last run succeeded:
    /// the pane is swapped back only while its placeholder is alive, and the
    /// temporary session is removed in any case.
    pub fn teardown_step(&self, state: TeardownState, succeeded: bool) -> (r: Option<
        (TeardownState, Vec<String>),
    >)
        ensures
            match teardown_next(
                self.pane_id@,
                self.temp_session_id@,
                self.placeholder_pane_id@,
                state,
                succeeded,
            ) {
                Some((next, args)) => r matches Some((s, a)) && s == next && string_views(a@)
                    == args,
                None => r is None,
            },
    {
        match state {
            TeardownState::CheckPlaceholder => {
                if succeeded {
                    Some(
                        (
                            TeardownState::SwapBack,
                            swap_command(
                                self.pane_id.as_str(),
                                self.placeholder_pane_id.as_str(),
                            ),
                        ),
                    )
                } else {
                    Some(
                        (
                            TeardownState::KillSession,
                            kill_command(self.temp_session_id.as_str()),
                        ),
                    )
                }
            },
            TeardownState::SwapBack => Some(
                (TeardownState::KillSession, kill_command(self.temp_session_id.as_str())),
            ),
            TeardownState::KillSession => None,
        }
    }
}

/// How a tmux target is attached to or captured.
pub enum SessionPlan {
    /// Attach to the session or window directly, with these arguments.
    Direct(Vec<String>),
    /// Isolate the pane with this tmux target first.
    Isolate(String),
}

impl crate::backends::Backend for TmuxBackend {
    fn scheme(&self) -> (r: &'static str)
        ensures
            r@ == "tmux"@,
    {
        "tmux"
    }

    /// The program and arguments that attach to a target: `tmux attach-session`.
    fn build_command(&self, path: &str) -> (r: Result<(String, Vec<String>), String>)
        ensures
            r matches Ok((prog, args)) && prog@ == "tmux"@ && string_views(args@) == seq![
                "attach-session"@,
                "-t"@,
                spec_resolve_target(path@).0,
            ],
    {
        let resolved = match resolve_target(path) {
            Ok(t) => t,
            Err(e) => return Err(e),
        };
        let mut args = strings2("attach-session", "-t");
        args.push(resolved.target);
        assert(string_views(args@) =~= seq![
            "attach-session"@,
            "-t"@,
            spec_resolve_target(path@).0,
        ]);
        Ok((String::from_str("tmux"), args))
    }
}

impl TmuxBackend {

    /// The arguments of the `list-panes` run that lists panes, in the layout
    /// that `tmux_targets` reads.
    pub fn list_args(&self) -> (r: Vec<String>)
        ensures
            string_views(r@) == seq![
                "list-panes"@,
                "-a"@,
                "-F"@,
                "#{pane_id};;#{pane_current_command};;#{session_created};;#{session_name}/#{window_name}/#{pane_index}"@,
            ],
    {
        let mut r = strings2("list-panes", "-a");
        r.push(String::from_str("-F"));
        r.push(
            String::from_str(
                "#{pane_id};;#{pane_current_command};;#{session_created};;#{session_name}/#{window_name}/#{pane_index}",
            ),
        );
        assert(string_views(r@) =~= seq![
            "list-panes"@,
            "-a"@,
            "-F"@,
            "#{pane_id};;#{pane_current_command};;#{session_created};;#{session_name}/#{window_name}/#{pane_index}"@,
        ]);
        r
    }


    /// Panes are isolated before they are attached to or captured; sessions
    /// and windows are attached to directly.
    pub fn session_plan(&self, path: &str) -> (r: Result<SessionPlan, String>)
        ensures
            r is Ok,
            spec_resolve_target(path@).1 == TargetKind::Pane ==> (r matches Ok(
                SessionPlan::Isolate(t),
            ) && t@ == spec_resolve_target(path@).0),
            spec_resolve_target(path@).1 != TargetKind::Pane ==> (r matches Ok(
                SessionPlan::Direct(args),
            ) && string_views(args@) == seq![
                "attach-session"@,
                "-t"@,
                spec_resolve_target(path@).0,
            ]),
    {
        let resolved = match resolve_target(path) {
            Ok(t) => t,
            Err(e) => return Err(e),
        };
        match resolved.kind {
            TargetKind::Pane => Ok(SessionPlan::Isolate(resolved.target)),
            _ => {
                let mut args = strings2("attach-session", "-t");
                args.push(resolved.target);
                assert(string_views(args@) =~= seq![
                    "attach-session"@,
                    "-t"@,
                    spec_resolve_target(path@).0,
                ]);
                Ok(SessionPlan::Direct(args))
            },
        }
    }

    /// The arguments of the `send-keys` run that sends these keys.
    pub fn send_keys_args(&self, path: &str, keys: &Vec<String>) -> (r: Result<
        Vec<String>,
        String,
    >)
        ensures
            r matches Ok(args) && string_views(args@) == seq![
                "send-keys"@,
                "-t"@,
                spec_resolve_target(path@).0,
            ] + string_views(keys@).map_values(|k: Seq<char>| spec_translate_key(k)),
    {
        let resolved = match resolve_target(path) {
            Ok(t) => t,
            Err(e) => return Err(e),
        };
        let mut args = strings2("send-keys", "-t");
        args.push(resolved.target);
        let ghost head = string_views(args@);
        let ghost ks = string_views(keys@);
        let mut i: usize = 0;
        while i < keys.len()
            invariant
                ks == string_views(keys@),
                i <= keys.len(),
                args@.len() == 3 + i,
                string_views(args@) == head + ks.take(i as int).map_values(
                    |k: Seq<char>| spec_translate_key(k),
                ),
            decreases keys.len() - i,
        {
            let t = translate_key(keys[i].as_str());
            let ghost old_views = string_views(args@);
            let ghost tv = t@;
            args.push(t);
            assert(string_views(args@) =~= old_views.push(tv));
            assert(ks.take(i + 1) =~= ks.take(i as int).push(keys@[i as int]@));
            assert(ks.take(i + 1).map_values(|k: Seq<char>| spec_translate_key(k)) =~= ks.take(
                i as int,
            ).map_values(|k: Seq<char>| spec_translate_key(k)).push(tv));
            assert(string_views(args@) =~= head + ks.take(i + 1).map_values(
                |k: Seq<char>| spec_translate_key(k),
            ));
            i += 1;
        }
        assert(ks.take(keys.len() as int) =~= ks);
        assert(head =~= seq!["send-keys"@, "-t"@, spec_resolve_target(path@).0]);
        Ok(args)
    }

    /// The arguments of the `send-keys -l` run that types this text literally.
    pub fn send_text_args(&self, path: &str, text: &str) -> (r: Result<Vec<String>, String>)
        ensures
            r matches Ok(args) && string_views(args@) == seq![
                "send-keys"@,
                "-t"@,
                spec_resolve_target(path@).0,
                "-l"@,
                text@,
            ],
    {
        let resolved = match resolve_target(path) {
            Ok(t) => t,
            Err(e) => return Err(e),
        };
        let mut args = strings2("send-keys", "-t");
        args.push(resolved.target);
        args.push(String::from_str("-l"));
        args.push(String::from_str(text));
        assert(string_views(args@) =~= seq![
            "send-keys"@,
            "-t"@,
            spec_resolve_target(path@).0,
            "-l"@,
            text@,
        ]);
        Ok(args)
    }
}

} // verus!
