//! Running applications as the library sees them: plain values that the
//! window server reported, and the decisions made on them.
use std::collections::HashSet;

use vstd::prelude::*;

use crate::text::{
    ascii_fold, chars_of, decimal, eq_ignore_ascii_case, is_ascii_text, lex_less, lex_lt,
    lemma_lex_asymmetric, lemma_lex_irreflexive, lemma_lex_total, lemma_lex_transitive, push_chars, push_decimal, push_str, str_eq_ignore_ascii_case,
    lemma_trim_shape, trim, trim_bounds,
};

verus! {

/// How the window server treats an application.
#[derive(Clone, Copy, PartialEq, Eq, Debug, Structural)]
pub enum Policy {
    /// Ordinary app with a Dock icon.
    Regular,
    /// Menu-bar / background agent (no Dock icon).
    Accessory,
    /// Cannot be activated at all (daemons, XPC services).
    Prohibited,
}

/// The word shown for a policy in listings.
pub open spec fn policy_label(p: Policy) -> Seq<char> {
    match p {
        Policy::Regular => "regular"@,
        Policy::Accessory => "accessory"@,
        Policy::Prohibited => "background"@,
    }
}

impl Policy {
    /// The word shown for this policy in listings.
    pub fn label(self) -> (r: &'static str)
        ensures
            r@ == policy_label(self),
    {
        match self {
            Policy::Regular => "regular",
            Policy::Accessory => "accessory",
            Policy::Prohibited => "background",
        }
    }
}

/// One running application, as seen by the window server.
#[derive(Clone, Debug)]
pub struct App {
    pub pid: i32,
    pub name: String,
    pub bundle_id: Option<String>,
    pub policy: Policy,
}

/// `needle` names the app: it equals the app's name or bundle identifier,
/// ignoring ASCII case.
pub open spec fn app_matches(app: App, needle: Seq<char>) -> bool {
    ||| eq_ignore_ascii_case(app.name@, needle)
    ||| (app.bundle_id matches Some(b) && eq_ignore_ascii_case(b@, needle))
}

/// Zero-width and bidirectional marks that some apps put in their names.
pub open spec fn is_invisible_mark(c: char) -> bool {
    ||| ('\u{200B}' <= c && c <= '\u{200F}')
    ||| ('\u{202A}' <= c && c <= '\u{202E}')
    ||| ('\u{2066}' <= c && c <= '\u{2069}')
    ||| c == '\u{FEFF}'
}

/// `s` without its invisible marks.
pub open spec fn strip_marks(s: Seq<char>) -> Seq<char> {
    s.filter(|c: char| !is_invisible_mark(c))
}

/// A raw application name as it is shown and matched: invisible marks
/// removed, then surrounding whitespace trimmed.
pub open spec fn clean(raw: Seq<char>) -> Seq<char> {
    trim(strip_marks(raw))
}

/// The name of an app whose localized name is `raw`, or `pid N` without one.
pub open spec fn display_name(pid: i32, raw: Option<String>) -> Seq<char> {
    match raw {
        Some(r) => clean(r@),
        None => "pid "@ + decimal(pid as int),
    }
}

fn invisible_mark(c: char) -> (r: bool)
    ensures
        r == is_invisible_mark(c),
{
    ('\u{200B}' <= c && c <= '\u{200F}') || ('\u{202A}' <= c && c <= '\u{202E}') || ('\u{2066}'
        <= c && c <= '\u{2069}') || c == '\u{FEFF}'
}

/// Strip the zero-width / bidi marks some apps (WhatsApp) put in their names,
/// so they sort and match like the visible text.
pub fn clean_name(raw: &str) -> (r: String)
    ensures
        r@ == clean(raw@),
{
    let v = chars_of(raw);
    let mut kept: Vec<char> = Vec::new();
    let mut i: usize = 0;
    while i < v.len()
        invariant
            i <= v@.len(),
            v@ == raw@,
            kept@ == strip_marks(v@.take(i as int)),
        decreases v@.len() - i,
    {
        assert(v@.take(i + 1).drop_last() =~= v@.take(i as int));
        assert(v@.take(i + 1).last() == v@[i as int]);
        reveal_with_fuel(Seq::filter, 1);
        if !invisible_mark(v[i]) {
            kept.push(v[i]);
        }
        i = i + 1;
    }
    assert(v@.take(v@.len() as int) =~= v@);
    let (start, end) = trim_bounds(kept.as_slice());
    let mut r = String::new();
    push_chars(&mut r, kept.as_slice(), start, end);
    assert(r@ =~= clean(raw@));
    r
}

/// A sequence without invisible marks is its own `strip_marks`.
proof fn lemma_strip_marks_unmarked(s: Seq<char>)
    requires
        forall|i: int| 0 <= i < s.len() ==> !is_invisible_mark(#[trigger] s[i]),
    ensures
        strip_marks(s) == s,
    decreases s.len(),
{
    reveal_with_fuel(Seq::filter, 1);
    if s.len() > 0 {
        lemma_strip_marks_unmarked(s.drop_last());
        assert(s.drop_last().push(s.last()) =~= s);
    }
}

/// Cleaning a clean name changes nothing.
pub proof fn lemma_clean_idempotent(raw: Seq<char>)
    ensures
        clean(clean(raw)) == clean(raw),
{
    let stripped = strip_marks(raw);
    let pred = |c: char| !is_invisible_mark(c);
    assert forall|i: int| 0 <= i < stripped.len() implies !is_invisible_mark(#[trigger] stripped[i]) by {
        raw.lemma_filter_pred(pred, i);
    }
    lemma_trim_shape(stripped);
    let t = trim(stripped);
    let (i, j) = choose|i: int, j: int|
        0 <= i <= j <= stripped.len() && t == #[trigger] stripped.subrange(i, j);
    assert forall|k: int| 0 <= k < t.len() implies !is_invisible_mark(#[trigger] t[k]) by {
        assert(t[k] == stripped[i + k]);
    }
    lemma_strip_marks_unmarked(t);
}

impl App {
    /// The app the window server reports with process id `pid`, localized
    /// name `localized_name` (if it has one), bundle identifier `bundle_id`
    /// and activation policy `policy`.
    pub fn from_parts(
        pid: i32,
        localized_name: Option<String>,
        bundle_id: Option<String>,
        policy: Policy,
    ) -> (app: App)
        ensures
            app.pid == pid,
            app.name@ == display_name(pid, localized_name),
            app.bundle_id == bundle_id,
            app.policy == policy,
    {
        let name = match localized_name {
            Some(raw) => clean_name(raw.as_str()),
            None => {
                let mut s = String::new();
                push_str(&mut s, "pid ");
                push_decimal(&mut s, pid as i64);
                s
            },
        };
        App { pid, name, bundle_id, policy }
    }

    /// True if `needle` matches this app's name (case-insensitive) or bundle identifier.
    pub fn matches(&self, needle: &str) -> (r: bool)
        ensures
            r == app_matches(*self, needle@),
    {
        if str_eq_ignore_ascii_case(self.name.as_str(), needle) {
            return true;
        }
        match &self.bundle_id {
            Some(b) => str_eq_ignore_ascii_case(b.as_str(), needle),
            None => false,
        }
    }
}

// ---------------------------------------------------------------------------
// Ordering apps by name
// ---------------------------------------------------------------------------

/// What `str::to_lowercase` returns for a string with characters `s`
/// (full Unicode lowercase mapping).
pub uninterp spec fn lowercase(s: Seq<char>) -> Seq<char>;

/// `str::to_lowercase`: the Unicode lowercase of `s`. The contract claims that
/// the result is a function of the characters of `s`, and that on ASCII text
/// it maps each capital letter to its small letter and keeps every other
/// character, as the Unicode lowercase mapping does for ASCII; what it gives
/// for other characters is left unsaid.
#[verifier::external_body]
fn to_lowercase(s: &str) -> (r: String)
    ensures
        r@ == lowercase(s@),
        is_ascii_text(s@) ==> r@ == ascii_fold(s@),
{
    s.to_lowercase()
}

/// The key by which apps are listed: the lowercase of their name.
pub open spec fn name_key(app: App) -> Seq<char> {
    lowercase(app.name@)
}

/// Key `ka` at original position `ia` comes before key `kb` at position `ib`
/// in a stable sort.
pub open spec fn precedes(ka: Seq<char>, ia: int, kb: Seq<char>, ib: int) -> bool {
    lex_lt(ka, kb) || (ka == kb && ia < ib)
}

/// `p` lists each of `0..n` once.
pub open spec fn is_permutation(p: Seq<int>, n: nat) -> bool {
    &&& p.len() == n
    &&& forall|j: int| 0 <= j < n ==> 0 <= #[trigger] p[j] < n
    &&& forall|j: int, k: int| 0 <= j < k < n ==> p[j] != p[k]
}

/// `out` is `input` rearranged by `p` (`out[j] == input[p[j]]`), ordered by
/// the name key of each entry's app, entries with equal keys keeping their
/// order.
pub open spec fn sorted_by_name_with<T>(out: Seq<(App, T)>, input: Seq<(App, T)>, p: Seq<int>) -> bool {
    &&& is_permutation(p, input.len())
    &&& out.len() == input.len()
    &&& forall|j: int| 0 <= j < out.len() ==> out[j] == input[#[trigger] p[j]]
    &&& forall|j: int, k: int|
        0 <= j < k < out.len() ==> precedes(
            name_key((#[trigger] out[j]).0),
            p[j],
            name_key((#[trigger] out[k]).0),
            p[k],
        )
}

/// `out` is the stable sort of `input` by the lowercase names of its apps.
pub open spec fn sorted_by_name<T>(out: Seq<(App, T)>, input: Seq<(App, T)>) -> bool {
    exists|p: Seq<int>| sorted_by_name_with(out, input, p)
}

/// Sorts apps, each with the data that goes with it, by lowercase name,
/// keeping the order of apps whose names compare equal
/// (`sort_by_key(|a| a.name.to_lowercase())`).
pub fn sort_by_name<T>(apps: Vec<(App, T)>) -> (r: Vec<(App, T)>)
    ensures
        sorted_by_name(r@, apps@),
        forall|j: int|
            0 <= j < r@.len() && is_ascii_text((#[trigger] r@[j]).0.name@) ==> name_key(r@[j].0)
                == ascii_fold(r@[j].0.name@),
        forall|j: int, k: int|
            0 <= j < k < r@.len() && is_ascii_text((#[trigger] r@[j]).0.name@) && is_ascii_text(
                (#[trigger] r@[k]).0.name@,
            ) ==> !lex_lt(ascii_fold(r@[k].0.name@), ascii_fold(r@[j].0.name@)),
{
    let ghost input = apps@;
    let n = apps.len();
    let mut rest = apps;
    let mut out: Vec<(App, T)> = Vec::new();
    let mut keys: Vec<Vec<char>> = Vec::new();
    let ghost mut perm: Seq<int> = Seq::empty();
    let mut i: usize = 0;
    assert(input.skip(0) =~= input);
    while i < n
        invariant
            n == input.len(),
            i <= n,
            rest@ == input.skip(i as int),
            out@.len() == i,
            keys@.len() == i,
            perm.len() == i,
            forall|j: int| 0 <= j < i ==> 0 <= #[trigger] perm[j] < i,
            forall|j: int, k: int| 0 <= j < k < i ==> perm[j] != perm[k],
            forall|j: int| 0 <= j < i ==> out@[j] == input[#[trigger] perm[j]],
            forall|j: int| 0 <= j < i ==> (#[trigger] keys@[j])@ == name_key(out@[j].0),
            forall|j: int|
                0 <= j < i && is_ascii_text((#[trigger] out@[j]).0.name@) ==> name_key(out@[j].0)
                    == ascii_fold(out@[j].0.name@),
            forall|j: int, k: int|
                0 <= j < k < i ==> precedes(
                    (#[trigger] keys@[j])@,
                    perm[j],
                    (#[trigger] keys@[k])@,
                    perm[k],
                ),
        decreases n - i,
    {
        assert(input.skip(i as int)[0] == input[i as int]);
        let entry = rest.remove(0);
        assert(input.skip(i as int).remove(0) =~= input.skip(i + 1));
        let lower = to_lowercase(entry.0.name.as_str());
        let key = chars_of(lower.as_str());
        let mut pos: usize = 0;
        while pos < keys.len() && !lex_less(key.as_slice(), keys[pos].as_slice())
            invariant
                pos <= keys@.len(),
                forall|m: int| 0 <= m < pos ==> !lex_lt(key@, (#[trigger] keys@[m])@),
            decreases keys@.len() - pos,
        {
            pos = pos + 1;
        }
        let ghost old_keys = keys@;
        let ghost old_out = out@;
        let ghost old_perm = perm;
        proof {
            // Every key before `pos` is at most `key`; every key from `pos` on is above it.
            assert forall|m: int| 0 <= m < pos implies precedes(
                (#[trigger] old_keys[m])@,
                old_perm[m],
                key@,
                i as int,
            ) by {
                lemma_lex_total(key@, old_keys[m]@);
            }
            assert forall|m: int| pos <= m < i implies lex_lt(key@, (#[trigger] old_keys[m])@) by {
                if m > pos {
                    assert(precedes(old_keys[pos as int]@, old_perm[pos as int], old_keys[m]@, old_perm[m]));
                    if lex_lt(old_keys[pos as int]@, old_keys[m]@) {
                        lemma_lex_transitive(key@, old_keys[pos as int]@, old_keys[m]@);
                    }
                }
            }
        }
        out.insert(pos, entry);
        keys.insert(pos, key);
        proof {
            perm = perm.insert(pos as int, i as int);
            old_perm.insert_ensures(pos as int, i as int);
            old_keys.insert_ensures(pos as int, key);
            old_out.insert_ensures(pos as int, entry);
            assert forall|j: int, k: int| 0 <= j < k < i + 1 implies precedes(
                (#[trigger] keys@[j])@,
                perm[j],
                (#[trigger] keys@[k])@,
                perm[k],
            ) by {
                let oj = if j < pos { j } else { j - 1 };
                let ok = if k < pos { k } else { k - 1 };
                if j != pos && k != pos {
                    assert(keys@[j] == old_keys[oj] && perm[j] == old_perm[oj]);
                    assert(keys@[k] == old_keys[ok] && perm[k] == old_perm[ok]);
                } else if j == pos {
                    assert(keys@[k] == old_keys[ok]);
                } else {
                    assert(keys@[j] == old_keys[oj]);
                }
            }
            assert forall|j: int, k: int| 0 <= j < k < i + 1 implies perm[j] != perm[k] by {
                let oj = if j < pos { j } else { j - 1 };
                let ok = if k < pos { k } else { k - 1 };
                if j != pos && k != pos {
                    assert(perm[j] == old_perm[oj] && perm[k] == old_perm[ok]);
                }
            }
            assert forall|j: int| 0 <= j < i + 1 implies out@[j] == input[#[trigger] perm[j]]
                && (keys@[j])@ == name_key(out@[j].0) && 0 <= perm[j] < i + 1 && (is_ascii_text(
                out@[j].0.name@,
            ) ==> name_key(out@[j].0) == ascii_fold(out@[j].0.name@)) by {
                if j < pos {
                } else if j > pos {
                    assert(out@[j] == old_out[j - 1]);
                }
            }
        }
        i = i + 1;
    }
    assert forall|j: int, k: int| 0 <= j < k < out@.len() implies precedes(
        name_key((#[trigger] out@[j]).0),
        perm[j],
        name_key((#[trigger] out@[k]).0),
        perm[k],
    ) by {
        assert(precedes(keys@[j]@, perm[j], keys@[k]@, perm[k]));
    }
    assert(sorted_by_name_with(out@, input, perm));
    proof {
        lemma_ascii_names_sorted_ignoring_case(out@, input, perm);
    }
    out
}

/// In a stable sort by name key whose keys are the ASCII-folded names, apps
/// with ASCII names come in the order of their names compared ignoring ASCII
/// case (`Visual Studio Code` before `VLC`), and apps whose names differ only
/// in ASCII case keep the order they had.
pub proof fn lemma_ascii_names_sorted_ignoring_case<T>(
    out: Seq<(App, T)>,
    input: Seq<(App, T)>,
    p: Seq<int>,
)
    requires
        sorted_by_name_with(out, input, p),
        forall|j: int|
            0 <= j < out.len() && is_ascii_text((#[trigger] out[j]).0.name@) ==> name_key(out[j].0)
                == ascii_fold(out[j].0.name@),
    ensures
        forall|j: int, k: int|
            0 <= j < k < out.len() && is_ascii_text((#[trigger] out[j]).0.name@) && is_ascii_text(
                (#[trigger] out[k]).0.name@,
            ) ==> {
                &&& !lex_lt(ascii_fold(out[k].0.name@), ascii_fold(out[j].0.name@))
                &&& (ascii_fold(out[j].0.name@) == ascii_fold(out[k].0.name@) ==> p[j] < p[k])
            },
{
    assert forall|j: int, k: int|
        0 <= j < k < out.len() && is_ascii_text((#[trigger] out[j]).0.name@) && is_ascii_text(
            (#[trigger] out[k]).0.name@,
        ) implies {
        &&& !lex_lt(ascii_fold(out[k].0.name@), ascii_fold(out[j].0.name@))
        &&& (ascii_fold(out[j].0.name@) == ascii_fold(out[k].0.name@) ==> p[j] < p[k])
    } by {
        let a = ascii_fold(out[j].0.name@);
        let b = ascii_fold(out[k].0.name@);
        assert(precedes(name_key(out[j].0), p[j], name_key(out[k].0), p[k]));
        if lex_lt(a, b) {
            lemma_lex_asymmetric(a, b);
            if a == b {
                lemma_lex_irreflexive(a);
            }
        } else {
            lemma_lex_irreflexive(a);
        }
    }
}

// ---------------------------------------------------------------------------
// Waiting for apps to exit
// ---------------------------------------------------------------------------

/// Whether waiting for apps to exit is over: none is still running, or the
/// deadline has passed.
pub fn wait_over(still_running: usize, deadline_passed: bool) -> (r: bool)
    ensures
        r == (still_running == 0 || deadline_passed),
{
    still_running == 0 || deadline_passed
}

// ---------------------------------------------------------------------------
// The chain of ancestor processes
// ---------------------------------------------------------------------------

/// The walk up the parent-process chain that finds the terminal (or editor)
/// this process was launched from: the parent, then the grandparent, and so
/// on. The kernel is asked, pid by pid, for each
/// parent; the walk stops at launchd (pid 1), when a parent is unknown, or
/// when a parent repeats.
pub struct AncestorWalk {
    /// The parents found so far.
    pub seen: HashSet<i32>,
    /// The parents found so far, nearest first.
    pub parents: Vec<i32>,
    /// The process whose parent is asked next.
    pub pid: i32,
    /// The walk is over.
    pub finished: bool,
}

impl AncestorWalk {
    /// A walk that starts at process `self_pid`.
    pub fn new(self_pid: i32) -> (w: AncestorWalk)
        ensures
            w.seen@ == Set::<i32>::empty(),
            w.parents@.len() == 0,
            w.pid == self_pid,
            !w.finished,
    {
        AncestorWalk { seen: HashSet::new(), parents: Vec::new(), pid: self_pid, finished: false }
    }

    /// The process whose parent the walk needs next, or `None` when it is over.
    pub fn next_query(&self) -> (r: Option<i32>)
        ensures
            r == (if !self.finished && self.pid > 1 {
                Some(self.pid)
            } else {
                None::<i32>
            }),
    {
        if !self.finished && self.pid > 1 {
            Some(self.pid)
        } else {
            None
        }
    }

    /// Takes the kernel's answer to `next_query`: the parent's pid, if known.
    /// A new parent joins `seen` and is asked about next; an unknown or
    /// repeated one ends the walk.
    pub fn record_parent(&mut self, parent: Option<i32>)
        requires
            !old(self).finished,
        ensures
            match parent {
                Some(pp) if !old(self).seen@.contains(pp) => {
                    &&& final(self).seen@ == old(self).seen@.insert(pp)
                    &&& final(self).parents@ == old(self).parents@.push(pp)
                    &&& final(self).pid == pp
                    &&& !final(self).finished
                },
                _ => {
                    &&& final(self).seen@ == old(self).seen@
                    &&& final(self).parents@ == old(self).parents@
                    &&& final(self).pid == old(self).pid
                    &&& final(self).finished
                },
            },
    {
        if let Some(pp) = parent {
            if self.seen.insert(pp) {
                self.parents.push(pp);
                self.pid = pp;
                return;
            }
        }
        self.finished = true;
    }
}

} // verus!
