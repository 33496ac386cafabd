//! The decisions of the web client: themes and languages it remembers,
//! notifications it shows, the PIN pad, which files it uploads and how it
//! paces chunks and retries.

use vstd::prelude::*;
use crate::seqs::{chars_equal_str, split_on};
use crate::text::{chars_of, string_from_chars, u64_to_decimal, decimal, is_ascii_digit_spec, starts_with_spec, starts_with, spec_to_lowercase, to_lowercase};

verus! {

/// The colour themes, in the order the toggle walks them.
#[derive(Clone, Copy, Debug, PartialEq, Eq, Structural)]
pub enum Theme {
    Brinstar,
    Norfair,
    WreckedShip,
    Maridia,
    Tourian,
    Crateria,
}

pub open spec fn theme_name(t: Theme) -> Seq<char> {
    match t {
        Theme::Brinstar => "brinstar"@,
        Theme::Norfair => "norfair"@,
        Theme::WreckedShip => "wrecked_ship"@,
        Theme::Maridia => "maridia"@,
        Theme::Tourian => "tourian"@,
        Theme::Crateria => "crateria"@,
    }
}

/// The theme after `t` in the toggle's cycle.
pub open spec fn next_theme_spec(t: Theme) -> Theme {
    match t {
        Theme::Brinstar => Theme::Norfair,
        Theme::Norfair => Theme::WreckedShip,
        Theme::WreckedShip => Theme::Maridia,
        Theme::Maridia => Theme::Tourian,
        Theme::Tourian => Theme::Crateria,
        Theme::Crateria => Theme::Brinstar,
    }
}

impl Theme {
    /// The name stored and set on the page for the theme.
    pub fn name(&self) -> (r: &'static str)
        ensures r@ == theme_name(*self),
    {
        match self {
            Theme::Brinstar => "brinstar",
            Theme::Norfair => "norfair",
            Theme::WreckedShip => "wrecked_ship",
            Theme::Maridia => "maridia",
            Theme::Tourian => "tourian",
            Theme::Crateria => "crateria",
        }
    }

    /// The theme with the given name.
    pub fn from_name(name: &str) -> (r: Option<Theme>)
        ensures r == theme_from_name_spec(name@),
    {
        let v = chars_of(name);
        if chars_equal_str(&v, "brinstar") { Some(Theme::Brinstar) }
        else if chars_equal_str(&v, "norfair") { Some(Theme::Norfair) }
        else if chars_equal_str(&v, "wrecked_ship") { Some(Theme::WreckedShip) }
        else if chars_equal_str(&v, "maridia") { Some(Theme::Maridia) }
        else if chars_equal_str(&v, "tourian") { Some(Theme::Tourian) }
        else if chars_equal_str(&v, "crateria") { Some(Theme::Crateria) }
        else { None }
    }

    /// The theme the toggle moves to.
    pub fn next(&self) -> (r: Theme)
        ensures r == next_theme_spec(*self),
    {
        match self {
            Theme::Brinstar => Theme::Norfair,
            Theme::Norfair => Theme::WreckedShip,
            Theme::WreckedShip => Theme::Maridia,
            Theme::Maridia => Theme::Tourian,
            Theme::Tourian => Theme::Crateria,
            Theme::Crateria => Theme::Brinstar,
        }
    }
}

/// The theme after pressing the toggle on the theme named `current`; an
/// unknown name counts as the default, `crateria`.
pub fn toggled_theme(current: &str) -> (r: Theme)
    ensures
        r == next_theme_spec(match theme_from_name_spec(current@) { Some(t) => t, None => Theme::Crateria }),
{
    let t = match Theme::from_name(current) {
        Some(t) => t,
        None => Theme::Crateria,
    };
    t.next()
}

/// The theme with a given name, if any.
pub open spec fn theme_from_name_spec(name: Seq<char>) -> Option<Theme> {
    if name == "brinstar"@ { Some(Theme::Brinstar) }
    else if name == "norfair"@ { Some(Theme::Norfair) }
    else if name == "wrecked_ship"@ { Some(Theme::WreckedShip) }
    else if name == "maridia"@ { Some(Theme::Maridia) }
    else if name == "tourian"@ { Some(Theme::Tourian) }
    else if name == "crateria"@ { Some(Theme::Crateria) }
    else { None }
}

/// A stored theme name with the names of former themes moved to their
/// successors.
pub open spec fn migrated_theme(raw: Seq<char>) -> Seq<char> {
    if raw == "light"@ { "brinstar"@ }
    else if raw == "dark"@ { "crateria"@ }
    else if raw == "nord"@ { "maridia"@ }
    else if raw == "dracula"@ { "wrecked_ship"@ }
    else if raw == "sepia"@ { "norfair"@ }
    else { raw }
}

/// A write to the browser's local storage.
pub struct StorageWrite {
    pub key: String,
    pub value: String,
}

/// The theme read back from storage, and the write that stores the migrated
/// name when migration changed it.
pub struct SavedTheme {
    pub theme: String,
    pub write: Option<StorageWrite>,
}

/// The theme to use given the stored value (`crateria` when none is stored):
/// former theme names are moved to their successors, and a moved name is
/// stored again.
pub fn get_saved_theme(stored: &str) -> (r: SavedTheme)
    ensures
        r.theme@ == migrated_theme(stored@),
        (r.write is Some) == (migrated_theme(stored@) != stored@),
        r.write matches Some(w) ==> w.key@ == "theme"@ && w.value@ == migrated_theme(stored@),
{
    let v = chars_of(stored);
    let theme = if chars_equal_str(&v, "light") { String::from_str("brinstar") }
        else if chars_equal_str(&v, "dark") { String::from_str("crateria") }
        else if chars_equal_str(&v, "nord") { String::from_str("maridia") }
        else if chars_equal_str(&v, "dracula") { String::from_str("wrecked_ship") }
        else if chars_equal_str(&v, "sepia") { String::from_str("norfair") }
        else { String::from_str(stored) };
    let changed = !(theme == String::from_str(stored));
    let write = if changed { Some(save_theme(theme.as_str())) } else { None };
    SavedTheme { theme, write }
}

/// The storage write that remembers a theme.
pub fn save_theme(theme: &str) -> (r: StorageWrite)
    ensures r.key@ == "theme"@ && r.value@ == theme@,
{
    StorageWrite { key: String::from_str("theme"), value: String::from_str(theme) }
}

/// The languages of the interface.
#[derive(Clone, Copy, Debug, PartialEq, Eq, Structural)]
pub enum Language {
    English,
    Chinese,
    Spanish,
    German,
    Japanese,
    French,
    Portuguese,
    Russian,
}

pub open spec fn language_code(l: Language) -> Seq<char> {
    match l {
        Language::English => "en"@,
        Language::Chinese => "zh"@,
        Language::Spanish => "es"@,
        Language::German => "de"@,
        Language::Japanese => "ja"@,
        Language::French => "fr"@,
        Language::Portuguese => "pt"@,
        Language::Russian => "ru"@,
    }
}

/// The language a code selects; any other code selects English.
pub open spec fn language_from_code_spec(code: Seq<char>) -> Language {
    if code == "zh"@ { Language::Chinese }
    else if code == "es"@ { Language::Spanish }
    else if code == "de"@ { Language::German }
    else if code == "ja"@ { Language::Japanese }
    else if code == "fr"@ { Language::French }
    else if code == "pt"@ { Language::Portuguese }
    else if code == "ru"@ { Language::Russian }
    else { Language::English }
}

impl Language {
    /// The two-letter code of the language.
    pub fn code(&self) -> (r: &'static str)
        ensures r@ == language_code(*self),
    {
        match self {
            Language::English => "en",
            Language::Chinese => "zh",
            Language::Spanish => "es",
            Language::German => "de",
            Language::Japanese => "ja",
            Language::French => "fr",
            Language::Portuguese => "pt",
            Language::Russian => "ru",
        }
    }

    /// The language that a code selects; unknown codes select English.
    pub fn from_code(code: &str) -> (r: Language)
        ensures r == language_from_code_spec(code@),
    {
        let v = chars_of(code);
        if chars_equal_str(&v, "zh") { Language::Chinese }
        else if chars_equal_str(&v, "es") { Language::Spanish }
        else if chars_equal_str(&v, "de") { Language::German }
        else if chars_equal_str(&v, "ja") { Language::Japanese }
        else if chars_equal_str(&v, "fr") { Language::French }
        else if chars_equal_str(&v, "pt") { Language::Portuguese }
        else if chars_equal_str(&v, "ru") { Language::Russian }
        else { Language::English }
    }
}

/// The language that a browser language tag (already lowercased) asks for, by
/// its prefix; English when none matches.
pub open spec fn language_from_tag(tag: Seq<char>) -> Language {
    if starts_with_spec(tag, "zh"@) { Language::Chinese }
    else if starts_with_spec(tag, "es"@) { Language::Spanish }
    else if starts_with_spec(tag, "de"@) { Language::German }
    else if starts_with_spec(tag, "ja"@) { Language::Japanese }
    else if starts_with_spec(tag, "fr"@) { Language::French }
    else if starts_with_spec(tag, "pt"@) { Language::Portuguese }
    else if starts_with_spec(tag, "ru"@) { Language::Russian }
    else { Language::English }
}

/// The language to start with: the stored choice when there is one, otherwise
/// the browser's language.
pub open spec fn saved_language_spec(stored: Seq<char>, navigator: Option<Seq<char>>) -> Language {
    if stored.len() > 0 {
        language_from_code_spec(stored)
    } else {
        match navigator {
            Some(n) => language_from_tag(spec_to_lowercase(n)),
            None => Language::English,
        }
    }
}

/// The language to start with, from the stored code (empty when none) and the
/// browser's language tag.
pub fn get_saved_language(stored: &str, navigator: Option<&str>) -> (r: Language)
    ensures r == saved_language_spec(stored@, crate::auth::opt_view(navigator)),
{
    if stored.unicode_len() > 0 {
        return Language::from_code(stored);
    }
    match navigator {
        Some(n) => {
            let low = to_lowercase(n);
            let t = low.as_str();
            if starts_with(t, "zh") { Language::Chinese }
            else if starts_with(t, "es") { Language::Spanish }
            else if starts_with(t, "de") { Language::German }
            else if starts_with(t, "ja") { Language::Japanese }
            else if starts_with(t, "fr") { Language::French }
            else if starts_with(t, "pt") { Language::Portuguese }
            else if starts_with(t, "ru") { Language::Russian }
            else { Language::English }
        },
        None => Language::English,
    }
}

/// The storage write that remembers a language.
pub fn save_language(lang: Language) -> (r: StorageWrite)
    ensures r.key@ == "lang"@ && r.value@ == language_code(lang),
{
    StorageWrite { key: String::from_str("lang"), value: String::from_str(lang.code()) }
}

/// A saved language reads back as itself.
pub proof fn law_language_round_trip(l: Language)
    ensures language_from_code_spec(language_code(l)) == l,
{
    reveal_strlit("en");
    reveal_strlit("zh");
    reveal_strlit("es");
    reveal_strlit("de");
    reveal_strlit("ja");
    reveal_strlit("fr");
    reveal_strlit("pt");
    reveal_strlit("ru");
    let codes = seq!["en"@, "zh"@, "es"@, "de"@, "ja"@, "fr"@, "pt"@, "ru"@];
    assert forall|a: int, b: int| 0 <= a < 8 && 0 <= b < 8 && a != b implies #[trigger] codes[a] != #[trigger] codes[b] by {
        assert(codes[a][0] != codes[b][0] || codes[a][1] != codes[b][1]);
    }
    assert(codes[0] == "en"@ && codes[1] == "zh"@ && codes[2] == "es"@ && codes[3] == "de"@);
    assert(codes[4] == "ja"@ && codes[5] == "fr"@ && codes[6] == "pt"@ && codes[7] == "ru"@);
}

/// Six presses of the theme toggle come back to the same theme, and every
/// theme is visited on the way.
pub proof fn law_theme_cycle(t: Theme)
    ensures
        next_theme_spec(next_theme_spec(next_theme_spec(next_theme_spec(next_theme_spec(next_theme_spec(t)))))) == t,
        next_theme_spec(t) != t,
{
}

/// The item a rename dialog is open for.
pub struct RenameData {
    pub item_path: String,
    pub current_name: String,
}

/// The texts of the interface in one language.
pub struct Translations {
    pub enter_pin: &'static str,
    pub locked_out: &'static str,
    pub pin_required: &'static str,
    pub drag_drop_prompt: &'static str,
    pub or: &'static str,
    pub browse_files: &'static str,
    pub browse_folders: &'static str,
    pub uploaded_files: &'static str,
    pub no_files: &'static str,
    pub name: &'static str,
    pub size: &'static str,
    pub actions: &'static str,
    pub rename_item: &'static str,
    pub cancel: &'static str,
    pub rename: &'static str,
    pub delete: &'static str,
    pub copy_link: &'static str,
    pub log_out: &'static str,
    pub file_singular: &'static str,
    pub file_plural: &'static str,
    pub uploading: &'static str,
    pub theme: &'static str,
    pub loading_files: &'static str,
    pub download: &'static str,
    pub queued: &'static str,
    pub initializing: &'static str,
    pub complete: &'static str,
    pub error: &'static str,
    pub of: &'static str,
    pub upload_files_btn: &'static str,
    pub invalid_pin: &'static str,
    pub delete_confirm_prefix: &'static str,
    pub delete_confirm_suffix: &'static str,
    pub deleted_prefix: &'static str,
    pub delete_failed_prefix: &'static str,
    pub renamed_prefix: &'static str,
    pub rename_failed_prefix: &'static str,
    pub failed_load_files_prefix: &'static str,
    pub file_uploaded_prefix: &'static str,
    pub upload_failed_prefix: &'static str,
    pub failed_process_drop_prefix: &'static str,
    pub download_link_copied: &'static str,
    pub failed_copy_link: &'static str,
    pub authentication_success: &'static str,
}

/// A notification shown at the foot of the page.
#[derive(Clone, Debug)]
pub struct Toast {
    pub id: usize,
    pub message: String,
    pub toast_type: String,
}

/// The notifications on screen and the id the next one gets.
pub struct ToastList {
    toasts: Vec<Toast>,
    next_id: usize,
}

impl ToastList {
    /// The ids of the notifications on screen, in order.
    pub closed spec fn ids(&self) -> Seq<usize> {
        self.toasts@.map_values(|t: Toast| t.id)
    }

    /// The id the next notification gets.
    pub closed spec fn next(&self) -> usize {
        self.next_id
    }

    /// The messages on screen, in order.
    pub closed spec fn messages(&self) -> Seq<Seq<char>> {
        self.toasts@.map_values(|t: Toast| t.message@)
    }

    /// Every id on screen is below the next id and they rise in order.
    pub closed spec fn wf(&self) -> bool {
        &&& forall|i: int| 0 <= i < self.toasts@.len() ==> (#[trigger] self.toasts@[i]).id < self.next_id
        &&& forall|i: int, j: int| 0 <= i < j < self.toasts@.len() ==> (#[trigger] self.toasts@[i]).id < (#[trigger] self.toasts@[j]).id
    }

    /// No notifications; the first gets id 0.
    pub fn new() -> (r: Self)
        ensures r.wf(), r.ids() == Seq::<usize>::empty(), r.next() == 0,
    {
        let r = ToastList { toasts: Vec::new(), next_id: 0 };
        assert(r.ids() =~= Seq::<usize>::empty());
        r
    }

    /// Shows a notification and returns its id, so that it can be removed
    /// when its time is up.
    pub fn add(&mut self, message: String, toast_type: String) -> (id: usize)
        requires old(self).wf(), old(self).next() < usize::MAX,
        ensures
            final(self).wf(),
            id == old(self).next(),
            final(self).next() == id + 1,
            final(self).ids() == old(self).ids().push(id),
            final(self).messages() == old(self).messages().push(message@),
    {
        let id = self.next_id;
        let ghost m = message@;
        self.toasts.push(Toast { id, message, toast_type });
        self.next_id = id + 1;
        assert(self.ids() =~= old(self).ids().push(id));
        assert(self.messages() =~= old(self).messages().push(m));
        id
    }

    /// Removes the notification with the given id, keeping the others in
    /// order.
    pub fn remove(&mut self, id: usize)
        requires old(self).wf(),
        ensures
            final(self).wf(),
            final(self).next() == old(self).next(),
            final(self).ids() == old(self).ids().filter(|x: usize| x != id),
    {
        let ghost before = self.ids();
        let mut kept: Vec<Toast> = Vec::new();
        let n = self.toasts.len();
        let mut i: usize = 0;
        proof { reveal(Seq::filter); }
        assert(before.take(0).filter(|x: usize| x != id) =~= Seq::<usize>::empty());
        while i < n
            invariant
                n == self.toasts@.len(),
                i <= n,
                before == self.toasts@.map_values(|t: Toast| t.id),
                kept@.map_values(|t: Toast| t.id) == before.take(i as int).filter(|x: usize| x != id),
                forall|k: int| 0 <= k < kept@.len() ==> (#[trigger] kept@[k]).id < self.next_id,
                forall|k: int| 0 <= k < self.toasts@.len() ==> (#[trigger] self.toasts@[k]).id < self.next_id,
                forall|a: int, b: int| 0 <= a < b < self.toasts@.len() ==> (#[trigger] self.toasts@[a]).id < (#[trigger] self.toasts@[b]).id,
                forall|a: int, b: int| 0 <= a < b < kept@.len() ==> (#[trigger] kept@[a]).id < (#[trigger] kept@[b]).id,
                forall|k: int| 0 <= k < kept@.len() ==> exists|a: int| 0 <= a < i && (#[trigger] kept@[k]).id == self.toasts@[a].id,
            decreases n - i,
        {
            let t = &self.toasts[i];
            proof {
                assert(before.take(i + 1) =~= before.take(i as int).push(before[i as int]));
                before.take(i as int).lemma_filter_push(before[i as int], |x: usize| x != id);
            }
            if t.id != id {
                let ghost kb = kept@;
                kept.push(Toast { id: t.id, message: t.message.clone(), toast_type: t.toast_type.clone() });
                proof {
                    assert(kept@[kb.len() as int].id == t.id);
                    assert(kept@.map_values(|t: Toast| t.id) =~= kb.map_values(|t: Toast| t.id).push(t.id));
                    assert forall|a: int, b: int| 0 <= a < b < kept@.len() implies (#[trigger] kept@[a]).id < (#[trigger] kept@[b]).id by {
                        if b == kb.len() {
                            assert(kept@[a] == kb[a]);
                            let c = choose|c: int| 0 <= c < i && (#[trigger] kb[a]).id == self.toasts@[c].id;
                            assert(self.toasts@[c].id < self.toasts@[i as int].id);
                        } else {
                            assert(kept@[a] == kb[a]);
                            assert(kept@[b] == kb[b]);
                        }
                    }
                    assert forall|k: int| 0 <= k < kept@.len() implies exists|a: int| 0 <= a < i + 1 && (#[trigger] kept@[k]).id == self.toasts@[a].id by {
                        if k == kb.len() {
                            assert(self.toasts@[i as int].id == kept@[k].id);
                        } else {
                            assert(kept@[k] == kb[k]);
                            let c = choose|c: int| 0 <= c < i && (#[trigger] kb[k]).id == self.toasts@[c].id;
                            assert(0 <= c < i + 1);
                        }
                    }
                }
            } else {
                assert forall|k: int| 0 <= k < kept@.len() implies exists|a: int| 0 <= a < i + 1 && (#[trigger] kept@[k]).id == self.toasts@[a].id by {
                    let c = choose|c: int| 0 <= c < i && (#[trigger] kept@[k]).id == self.toasts@[c].id;
                    assert(0 <= c < i + 1);
                }
            }
            i = i + 1;
        }
        assert(before.take(n as int) =~= before);
        self.toasts = kept;
    }
}

/// Every new notification gets an id that no notification on screen has.
pub proof fn law_toast_ids_fresh(l: ToastList)
    requires l.wf(),
    ensures !l.ids().contains(l.next()),
{
    if l.ids().contains(l.next()) {
        let i = choose|i: int| 0 <= i < l.ids().len() && l.ids()[i] == l.next();
        lemma_toast_id_below(l, i);
    }
}

proof fn lemma_toast_id_below(l: ToastList, i: int)
    requires l.wf(), 0 <= i < l.ids().len(),
    ensures l.ids()[i] < l.next(),
{
}

/// `e` holds `pat` somewhere.
pub open spec fn contains_spec(e: Seq<char>, pat: Seq<char>) -> bool {
    exists|i: int| 0 <= i <= e.len() - pat.len() && #[trigger] e.subrange(i, i + pat.len()) == pat
}

pub(crate) fn contains_str(e: &str, pat: &str) -> (r: bool)
    ensures r == contains_spec(e@, pat@),
{
    let v = chars_of(e);
    let p = chars_of(pat);
    let n = v.len();
    let m = p.len();
    if m > n {
        return false;
    }
    let mut i: usize = 0;
    while i <= n - m
        invariant
            v@ == e@, p@ == pat@, n == v@.len(), m == p@.len(), m <= n,
            i <= n - m + 1,
            forall|k: int| 0 <= k < i ==> #[trigger] e@.subrange(k, k + m) != pat@,
        decreases n - m + 1 - i,
    {
        let mut k: usize = 0;
        let mut same = true;
        while k < m
            invariant
                v@ == e@, p@ == pat@, n == v@.len(), m == p@.len(), i + m <= n,
                k <= m,
                same == forall|j: int| 0 <= j < k ==> v@[i + j] == p@[j],
            decreases m - k,
        {
            if v[i + k] != p[k] {
                same = false;
            }
            k = k + 1;
        }
        if same {
            assert(e@.subrange(i as int, i + m) =~= pat@);
            return true;
        }
        assert(e@.subrange(i as int, i + m) != pat@) by {
            let j = choose|j: int| 0 <= j < m && v@[i + j] != p@[j];
            assert(e@.subrange(i as int, i + m)[j] != pat@[j]);
        }
        i = i + 1;
    }
    false
}

/// A PIN error that means the client is locked out: it speaks of too many
/// attempts or of a lock.
pub open spec fn lockout_error_spec(e: Seq<char>) -> bool {
    contains_spec(e, "Too many"@) || contains_spec(e, "locked"@)
}

/// Whether a PIN verification error means a lockout.
pub fn is_lockout_error(e: &str) -> (r: bool)
    ensures r == lockout_error_spec(e@),
{
    contains_str(e, "Too many") || contains_str(e, "locked")
}

/// The PIN entry boxes, one digit each.
pub struct PinPad {
    digits: Vec<Option<char>>,
    locked: bool,
}

/// What the page does after a PIN pad event.
#[derive(Clone, Copy, Debug, PartialEq, Eq, Structural)]
pub struct PinUpdate {
    /// The page is drawn again.
    pub redraw: bool,
    /// The box to focus.
    pub focus: Option<usize>,
    /// The PIN is complete and is sent for verification.
    pub submit: bool,
}

/// The ASCII digits of `s`, in order.
pub open spec fn digits_of(s: Seq<char>) -> Seq<char> {
    s.filter(|c: char| is_ascii_digit_spec(c))
}

/// Every box holds a digit.
pub open spec fn all_filled(d: Seq<Option<char>>) -> bool {
    forall|i: int| 0 <= i < d.len() ==> (#[trigger] d[i]) is Some
}

/// Every box is empty or holds a digit.
pub open spec fn boxes_wf(d: Seq<Option<char>>) -> bool {
    forall|i: int| 0 <= i < d.len() ==> match #[trigger] d[i] { Some(c) => is_ascii_digit_spec(c), None => true }
}

fn ascii_digits(s: &str) -> (r: Vec<char>)
    ensures r@ == digits_of(s@),
{
    let v = chars_of(s);
    let mut r: Vec<char> = Vec::new();
    let mut i: usize = 0;
    proof { reveal(Seq::filter); }
    assert(v@.take(0).filter(|c: char| is_ascii_digit_spec(c)) =~= Seq::<char>::empty());
    while i < v.len()
        invariant
            v@ == s@,
            i <= v@.len(),
            r@ == v@.take(i as int).filter(|c: char| is_ascii_digit_spec(c)),
        decreases v@.len() - i,
    {
        proof {
            assert(v@.take(i + 1) =~= v@.take(i as int).push(v@[i as int]));
            v@.take(i as int).lemma_filter_push(v@[i as int], |c: char| is_ascii_digit_spec(c));
        }
        if '0' <= v[i] && v[i] <= '9' {
            r.push(v[i]);
        }
        i = i + 1;
    }
    assert(v@.take(v@.len() as int) =~= v@);
    r
}

impl PinPad {
    /// The boxes, each holding a digit or nothing.
    pub closed spec fn boxes(&self) -> Seq<Option<char>> {
        self.digits@
    }

    /// The pad no longer takes input after a lockout.
    pub closed spec fn is_locked(&self) -> bool {
        self.locked
    }

    /// Empty boxes for a PIN of `len` digits.
    pub fn new(len: usize) -> (r: Self)
        ensures
            r.boxes().len() == len,
            forall|i: int| 0 <= i < len ==> r.boxes()[i] is None,
            !r.is_locked(),
    {
        let mut digits: Vec<Option<char>> = Vec::new();
        let mut i: usize = 0;
        while i < len
            invariant
                i <= len,
                digits@.len() == i,
                forall|k: int| 0 <= k < i ==> digits@[k] is None,
            decreases len - i,
        {
            digits.push(None);
            i = i + 1;
        }
        PinPad { digits, locked: false }
    }

    /// Stops taking input; a lockout was reported.
    pub fn lock(&mut self)
        ensures final(self).is_locked(), final(self).boxes() == old(self).boxes(),
    {
        self.locked = true;
    }

    /// Empties every box and takes input again.
    pub fn reset(&mut self)
        ensures
            !final(self).is_locked(),
            final(self).boxes().len() == old(self).boxes().len(),
            forall|i: int| 0 <= i < final(self).boxes().len() ==> final(self).boxes()[i] is None,
    {
        let n = self.digits.len();
        *self = PinPad::new(n);
    }

    /// The server refused the PIN with `error`. A message of a lockout stops
    /// the pad; any other message empties it for a new try; an empty message
    /// changes nothing.
    pub fn refused(&mut self, error: &str)
        ensures
            error@.len() == 0 ==> *final(self) == *old(self),
            error@.len() > 0 && lockout_error_spec(error@) ==>
                final(self).is_locked() && final(self).boxes() == old(self).boxes(),
            error@.len() > 0 && !lockout_error_spec(error@) ==> {
                &&& !final(self).is_locked()
                &&& final(self).boxes().len() == old(self).boxes().len()
                &&& forall|i: int| 0 <= i < final(self).boxes().len() ==> final(self).boxes()[i] is None
            },
    {
        if error.unicode_len() == 0 {
            return;
        }
        if is_lockout_error(error) {
            self.lock();
        } else {
            self.reset();
        }
    }

    fn filled(&self) -> (r: bool)
        ensures r == all_filled(self.boxes()),
    {
        let mut i: usize = 0;
        while i < self.digits.len()
            invariant
                i <= self.digits@.len(),
                forall|k: int| 0 <= k < i ==> self.digits@[k] is Some,
            decreases self.digits@.len() - i,
        {
            if self.digits[i].is_none() {
                return false;
            }
            i = i + 1;
        }
        true
    }

    /// A box received text: its first digit, if any, goes into the box and
    /// the focus moves on; the last box, once every box is filled, submits the
    /// PIN. Text without a digit empties the box.
    pub fn input(&mut self, idx: usize, text: &str) -> (r: PinUpdate)
        requires idx < old(self).boxes().len(),
        ensures
            old(self).is_locked() ==> final(self).boxes() == old(self).boxes() && !r.redraw && !r.submit,
            !old(self).is_locked() ==> ({
                let d = digits_of(text@);
                &&& r.redraw
                &&& final(self).boxes() == old(self).boxes().update(idx as int, if d.len() > 0 { Some(d[0]) } else { None })
                &&& r.focus == (if d.len() > 0 && idx + 1 < old(self).boxes().len() { Some((idx + 1) as usize) } else { None::<usize> })
                &&& r.submit == (d.len() > 0 && idx + 1 == old(self).boxes().len() && all_filled(final(self).boxes()))
            }),
            final(self).is_locked() == old(self).is_locked(),
    {
        if self.locked {
            return PinUpdate { redraw: false, focus: None, submit: false };
        }
        let d = ascii_digits(text);
        if d.len() > 0 {
            self.digits.set(idx, Some(d[0]));
            if idx < self.digits.len() - 1 {
                PinUpdate { redraw: true, focus: Some(idx + 1), submit: false }
            } else {
                let all = self.filled();
                PinUpdate { redraw: true, focus: None, submit: all }
            }
        } else {
            self.digits.set(idx, None);
            PinUpdate { redraw: true, focus: None, submit: false }
        }
    }

    /// Backspace in box `idx`: in an empty box it empties the box before and
    /// moves the focus there.
    pub fn backspace(&mut self, idx: usize) -> (r: PinUpdate)
        requires idx < old(self).boxes().len(),
        ensures
            (!old(self).is_locked() && old(self).boxes()[idx as int] is None && idx > 0) ==> ({
                &&& final(self).boxes() == old(self).boxes().update(idx - 1, None)
                &&& r == (PinUpdate { redraw: true, focus: Some((idx - 1) as usize), submit: false })
            }),
            !(!old(self).is_locked() && old(self).boxes()[idx as int] is None && idx > 0) ==> ({
                &&& final(self).boxes() == old(self).boxes()
                &&& r == (PinUpdate { redraw: false, focus: None, submit: false })
            }),
            final(self).is_locked() == old(self).is_locked(),
    {
        if !self.locked && self.digits[idx].is_none() && idx > 0 {
            self.digits.set(idx - 1, None);
            PinUpdate { redraw: true, focus: Some(idx - 1), submit: false }
        } else {
            PinUpdate { redraw: false, focus: None, submit: false }
        }
    }

    /// Pasted text: its digits fill the boxes from the first; the PIN is
    /// submitted when every box is filled, otherwise the first empty box gets
    /// the focus.
    pub fn paste(&mut self, text: &str) -> (r: PinUpdate)
        ensures
            final(self).is_locked() == old(self).is_locked(),
            (old(self).is_locked() || digits_of(text@).len() == 0) ==> final(self).boxes() == old(self).boxes() && !r.redraw && !r.submit,
            !(old(self).is_locked() || digits_of(text@).len() == 0) ==> ({
                let d = digits_of(text@);
                &&& r.redraw
                &&& final(self).boxes().len() == old(self).boxes().len()
                &&& forall|i: int| 0 <= i < final(self).boxes().len() ==> #[trigger] final(self).boxes()[i]
                    == (if i < d.len() { Some(d[i]) } else { old(self).boxes()[i] })
                &&& r.submit == all_filled(final(self).boxes())
                &&& !r.submit ==> (r.focus matches Some(f) && f < final(self).boxes().len() && final(self).boxes()[f as int] is None
                    && forall|j: int| 0 <= j < f ==> final(self).boxes()[j] is Some)
            }),
    {
        if self.locked {
            return PinUpdate { redraw: false, focus: None, submit: false };
        }
        let d = ascii_digits(text);
        if d.len() == 0 {
            return PinUpdate { redraw: false, focus: None, submit: false };
        }
        let ghost before = self.digits@;
        let ghost lk = self.locked;
        let n = self.digits.len();
        let mut i: usize = 0;
        while i < d.len() && i < n
            invariant
                self.locked == lk,
                n == self.digits@.len(),
                n == before.len(),
                i <= n,
                i <= d@.len(),
                forall|k: int| 0 <= k < n ==> #[trigger] self.digits@[k] == (if k < i { Some(d@[k]) } else { before[k] }),
            decreases n - i,
        {
            self.digits.set(i, Some(d[i]));
            i = i + 1;
        }
        if self.filled() {
            return PinUpdate { redraw: true, focus: None, submit: true };
        }
        let mut f: usize = 0;
        while f < n && self.digits[f].is_some()
            invariant
                self.locked == lk,
                n == self.digits@.len(),
                f <= n,
                forall|j: int| 0 <= j < f ==> self.digits@[j] is Some,
            decreases n - f,
        {
            f = f + 1;
        }
        PinUpdate { redraw: true, focus: Some(f), submit: false }
    }

    /// The PIN typed so far.
    pub fn pin(&self) -> (r: String)
        ensures r@ == self.boxes().filter(|o: Option<char>| o is Some).map_values(|o: Option<char>| o->0),
    {
        let mut v: Vec<char> = Vec::new();
        let mut i: usize = 0;
        let ghost b = self.digits@;
        proof { reveal(Seq::filter); }
        assert(b.take(0).filter(|o: Option<char>| o is Some).map_values(|o: Option<char>| o->0) =~= Seq::<char>::empty());
        while i < self.digits.len()
            invariant
                b == self.digits@,
                i <= b.len(),
                v@ == b.take(i as int).filter(|o: Option<char>| o is Some).map_values(|o: Option<char>| o->0),
            decreases b.len() - i,
        {
            proof {
                assert(b.take(i + 1) =~= b.take(i as int).push(b[i as int]));
                b.take(i as int).lemma_filter_push(b[i as int], |o: Option<char>| o is Some);
            }
            match self.digits[i] {
                Some(c) => {
                    let ghost before = v@;
                    v.push(c);
                    assert(b.take(i + 1).filter(|o: Option<char>| o is Some).map_values(|o: Option<char>| o->0)
                        =~= before.push(c));
                },
                None => {},
            }
            i = i + 1;
        }
        assert(b.take(b.len() as int) =~= b);
        string_from_chars(&v)
    }

    /// Whether every box holds a digit, so that the PIN can be verified.
    pub fn is_complete(&self) -> (r: bool)
        ensures r == all_filled(self.boxes()),
    {
        self.filled()
    }
}

/// The text of a file-size limit: whole gigabytes from one gigabyte on,
/// otherwise whole megabytes.
pub open spec fn size_limit_text_spec(max: u64) -> Seq<char> {
    if max >= 1073741824 { decimal((max / 1073741824) as nat) + " GB"@ } else { decimal((max / 1048576) as nat) + " MB"@ }
}

/// The limit shown when files are refused for their size.
pub fn size_limit_text(max: u64) -> (r: String)
    ensures r@ == size_limit_text_spec(max),
{
    if max >= 1073741824 {
        let mut s = u64_to_decimal(max / 1073741824);
        s.append(" GB");
        s
    } else {
        let mut s = u64_to_decimal(max / 1048576);
        s.append(" MB");
        s
    }
}

/// The positions of the files that may be uploaded (no larger than `max`) and
/// of those that are too large, each in order.
pub fn split_by_size(sizes: &Vec<u64>, max: u64) -> (r: (Vec<usize>, Vec<usize>))
    ensures
        r.0@ == Seq::new(sizes@.len(), |i: int| i).filter(|i: int| sizes@[i] <= max).map_values(|i: int| i as usize),
        r.1@ == Seq::new(sizes@.len(), |i: int| i).filter(|i: int| sizes@[i] > max).map_values(|i: int| i as usize),
{
    let ghost idx = Seq::new(sizes@.len(), |i: int| i);
    let mut ok: Vec<usize> = Vec::new();
    let mut big: Vec<usize> = Vec::new();
    let mut i: usize = 0;
    proof { reveal(Seq::filter); }
    assert(idx.take(0).filter(|i: int| sizes@[i] <= max) =~= Seq::<int>::empty());
    assert(idx.take(0).filter(|i: int| sizes@[i] > max) =~= Seq::<int>::empty());
    while i < sizes.len()
        invariant
            idx == Seq::new(sizes@.len(), |i: int| i),
            i <= sizes@.len(),
            ok@ == idx.take(i as int).filter(|i: int| sizes@[i] <= max).map_values(|i: int| i as usize),
            big@ == idx.take(i as int).filter(|i: int| sizes@[i] > max).map_values(|i: int| i as usize),
        decreases sizes@.len() - i,
    {
        proof {
            assert(idx.take(i + 1) =~= idx.take(i as int).push(i as int));
            idx.take(i as int).lemma_filter_push(i as int, |i: int| sizes@[i] <= max);
            idx.take(i as int).lemma_filter_push(i as int, |i: int| sizes@[i] > max);
        }
        if sizes[i] > max {
            let ghost b = big@;
            big.push(i);
            assert(big@ =~= idx.take(i + 1).filter(|i: int| sizes@[i] > max).map_values(|i: int| i as usize));
            assert(ok@ =~= idx.take(i + 1).filter(|i: int| sizes@[i] <= max).map_values(|i: int| i as usize));
        } else {
            ok.push(i);
            assert(ok@ =~= idx.take(i + 1).filter(|i: int| sizes@[i] <= max).map_values(|i: int| i as usize));
            assert(big@ =~= idx.take(i + 1).filter(|i: int| sizes@[i] > max).map_values(|i: int| i as usize));
        }
        i = i + 1;
    }
    assert(idx.take(sizes@.len() as int) =~= idx);
    (ok, big)
}

/// An upload has finished: it is complete or has failed.
pub open spec fn upload_finished(status: Seq<char>) -> bool {
    status == "complete"@ || starts_with_spec(status, "Error"@)
}

/// Whether every upload of the batch has finished.
pub fn all_uploads_finished(statuses: &Vec<String>) -> (r: bool)
    ensures r == forall|i: int| 0 <= i < statuses@.len() ==> upload_finished(#[trigger] statuses@[i]@),
{
    let mut i: usize = 0;
    while i < statuses.len()
        invariant
            i <= statuses@.len(),
            forall|k: int| 0 <= k < i ==> upload_finished(#[trigger] statuses@[k]@),
        decreases statuses@.len() - i,
    {
        let s = statuses[i].as_str();
        let c = chars_of(s);
        if !(chars_equal_str(&c, "complete") || starts_with(s, "Error")) {
            return false;
        }
        i = i + 1;
    }
    true
}

/// The size of an upload chunk: one mebibyte.
pub const CHUNK_SIZE: u64 = 1048576;

/// Where the chunk that starts at `position` ends.
pub fn chunk_end(position: u64, size: u64) -> (r: u64)
    requires position + CHUNK_SIZE <= u64::MAX,
    ensures r == (if position + CHUNK_SIZE < size { position + CHUNK_SIZE } else { size as int }),
{
    if position + CHUNK_SIZE < size { position + CHUNK_SIZE } else { size }
}

/// Two to the power `e`.
pub open spec fn pow2_spec(e: nat) -> nat
    decreases e,
{
    if e == 0 { 1 } else { 2 * pow2_spec((e - 1) as nat) }
}

/// The wait before retry `attempt` of a chunk: one second, doubled for each
/// earlier retry, at most thirty seconds.
pub open spec fn retry_delay_spec(attempt: u32) -> nat {
    let d = 1000 * pow2_spec((attempt - 1) as nat);
    if d < 30000 { d } else { 30000 }
}

/// The wait in milliseconds before retry `attempt` (from 1) of a chunk.
pub fn retry_delay_ms(attempt: u32) -> (r: u64)
    requires 1 <= attempt,
    ensures r == retry_delay_spec(attempt),
{
    if attempt > 5 {
        proof {
            lemma_pow2_mono(5, (attempt - 1) as nat);
            reveal_with_fuel(pow2_spec, 6);
        }
        return 30000;
    }
    let mut p: u64 = 1;
    let mut k: u32 = 0;
    while k < attempt - 1
        invariant
            k <= attempt - 1,
            attempt <= 5,
            p == pow2_spec(k as nat),
            p <= 16,
        decreases attempt - 1 - k,
    {
        proof {
            lemma_pow2_mono((k + 1) as nat, 4);
            reveal_with_fuel(pow2_spec, 5);
        }
        p = p * 2;
        k = k + 1;
    }
    1000 * p
}

proof fn lemma_pow2_mono(k: nat, j: nat)
    requires k <= j,
    ensures pow2_spec(k) <= pow2_spec(j),
    decreases j,
{
    if k < j {
        lemma_pow2_mono(k, (j - 1) as nat);
    }
}

/// The wait never exceeds thirty seconds and never shrinks from one retry to
/// the next.
pub proof fn law_retry_delay_bounded_and_growing(a: u32)
    requires 1 <= a < u32::MAX,
    ensures
        retry_delay_spec(a) <= 30000,
        retry_delay_spec(a) <= retry_delay_spec((a + 1) as u32),
{
    lemma_pow2_mono((a - 1) as nat, a as nat);
}

/// The name shown for an upload path: its last `/`-separated part.
pub open spec fn display_name_spec(path: Seq<char>) -> Seq<char> {
    split_on(path, '/', '/').last()
}

/// The last `/`-separated part of a path.
pub fn display_name(path: &str) -> (r: String)
    ensures r@ == display_name_spec(path@),
{
    let v = chars_of(path);
    let pieces = crate::seqs::split_chars(&v, '/', '/');
    proof { crate::seqs::lemma_split_on_nonempty(path@, '/', '/'); }
    let last = pieces.len() - 1;
    assert(crate::seqs::views(pieces@)[last as int] == pieces@[last as int]@);
    string_from_chars(&pieces[last])
}

} // verus!
