//! The languages the interface speaks, how a language is named in the settings file, and the
//! interface's English text as each language words it, falling back to the English where a
//! language has no entry.
use vstd::prelude::*;
use vstd::string::StrSliceExecFns;
use crate::text::{same_text, trim, trimmed};

verus! {

#[derive(Clone, Copy, Debug, PartialEq, Eq, Structural)]
pub enum Language {
    English,
    Spanish,
    French,
    Russian,
    Turkish,
}

/// `s` in lower case, as Unicode lowercases it.
pub uninterp spec fn lowercased(s: Seq<char>) -> Seq<char>;

/// `str::to_lowercase`: the lowercase equivalent of `s`, as a new string. The contract names it.
#[verifier::external_body]
fn to_lowercase(s: &str) -> (r: String)
    ensures
        r@ == lowercased(s@),
{
    s.to_lowercase()
}

/// The language a lowercase name or code stands for.
pub open spec fn language_named(name: Seq<char>) -> Option<Language> {
    if name == "english"@ || name == "en"@ {
        Some(Language::English)
    } else if name == "spanish"@ || name == "español"@ || name == "espanol"@ || name == "es"@ {
        Some(Language::Spanish)
    } else if name == "french"@ || name == "français"@ || name == "francais"@ || name == "fr"@ {
        Some(Language::French)
    } else if name == "russian"@ || name == "русский"@ || name == "ru"@ {
        Some(Language::Russian)
    } else if name == "turkish"@ || name == "türkçe"@ || name == "turkce"@ || name == "tr"@ {
        Some(Language::Turkish)
    } else {
        None
    }
}

/// Where the language part of a locale such as `fr_FR` or `zh-Hans` ends.
pub open spec fn separator_at(s: Seq<char>) -> int
    decreases s.len(),
{
    if s.len() == 0 {
        0
    } else if s[0] == '_' || s[0] == '-' {
        0
    } else {
        1 + separator_at(s.drop_first())
    }
}

/// The language a settings value names: a language's name in English or in itself, or its code,
/// whatever the case, alone or with a region after `_` or `-`.
pub open spec fn language_of_id(id: Seq<char>) -> Option<Language> {
    let key = lowercased(trimmed(id));
    if language_named(key) is Some {
        language_named(key)
    } else if separator_at(key) < key.len() {
        match language_named(key.subrange(0, separator_at(key))) {
            Some(l) => if key.subrange(0, separator_at(key)).len() == 2 {
                Some(l)
            } else {
                None
            },
            None => None,
        }
    } else {
        None
    }
}

fn named(name: &str) -> (r: Option<Language>)
    ensures
        r == language_named(name@),
{
    if same_text(name, "english") || same_text(name, "en") {
        Some(Language::English)
    } else if same_text(name, "spanish") || same_text(name, "español") || same_text(name, "espanol") || same_text(name, "es") {
        Some(Language::Spanish)
    } else if same_text(name, "french") || same_text(name, "français") || same_text(name, "francais") || same_text(name, "fr") {
        Some(Language::French)
    } else if same_text(name, "russian") || same_text(name, "русский") || same_text(name, "ru") {
        Some(Language::Russian)
    } else if same_text(name, "turkish") || same_text(name, "türkçe") || same_text(name, "turkce") || same_text(name, "tr") {
        Some(Language::Turkish)
    } else {
        None
    }
}

proof fn lemma_separator_at(s: Seq<char>, i: int)
    requires
        0 <= i <= s.len(),
        forall|j: int| 0 <= j < i ==> s[j] != '_' && s[j] != '-',
    ensures
        i == s.len() || s[i] == '_' || s[i] == '-' ==> separator_at(s) == i,
    decreases i,
{
    if i > 0 {
        assert forall|j: int| 0 <= j < i - 1 implies s.drop_first()[j] != '_' && s.drop_first()[j] != '-' by {
            assert(s.drop_first()[j] == s[j + 1]);
        }
        lemma_separator_at(s.drop_first(), i - 1);
        if i == s.len() || s[i] == '_' || s[i] == '-' {
            assert(i - 1 == s.drop_first().len() || s.drop_first()[i - 1] == s[i]);
        }
    }
}

impl Language {
    /// The language a settings value names, if it names one.
    pub fn from_id(id: &str) -> (r: Option<Language>)
        ensures
            r == language_of_id(id@),
    {
        let lowered = to_lowercase(trim(id));
        let key = lowered.as_str();
        if let Some(language) = named(key) {
            return Some(language);
        }
        let n = key.unicode_len();
        let mut i: usize = 0;
        while i < n && key.get_char(i) != '_' && key.get_char(i) != '-'
            invariant
                n == key@.len(),
                i <= n,
                forall|j: int| 0 <= j < i ==> key@[j] != '_' && key@[j] != '-',
            decreases n - i,
        {
            i = i + 1;
        }
        proof {
            lemma_separator_at(key@, i as int);
        }
        if i == n || i != 2 {
            return None;
        }
        named(key.substring_char(0, i))
    }

    /// The language's name in the settings file.
    pub fn id(&self) -> (s: &'static str)
        ensures
            s@ == match *self {
                Language::English => "english"@,
                Language::Spanish => "spanish"@,
                Language::French => "french"@,
                Language::Russian => "russian"@,
                Language::Turkish => "turkish"@,
            },
    {
        match self {
            Language::English => "english",
            Language::Spanish => "spanish",
            Language::French => "french",
            Language::Russian => "russian",
            Language::Turkish => "turkish",
        }
    }
}

/// What the Spanish table holds for an English text.
pub open spec fn spanish(key: Seq<char>) -> Option<Seq<char>> {
    if key == " background:"@ {
        Some(" segundo plano:"@)
    } else if key == "file watcher"@ {
        Some("monitor de archivos"@)
    } else if key == "Toggle file watcher"@ {
        Some("Alternar monitor de archivos"@)
    } else if key == "Shrink graph lane limit"@ {
        Some("Reducir límite de carriles del grafo"@)
    } else if key == "Grow graph lane limit"@ {
        Some("Aumentar límite de carriles del grafo"@)
    } else {
        None
    }
}

pub open spec fn french(key: Seq<char>) -> Option<Seq<char>> {
    if key == " background:"@ {
        Some(" arrière-plan :"@)
    } else if key == "file watcher"@ {
        Some("surveillance de fichiers"@)
    } else if key == "Toggle file watcher"@ {
        Some("Basculer la surveillance de fichiers"@)
    } else if key == "Shrink graph lane limit"@ {
        Some("Réduire la limite de voies du graphe"@)
    } else if key == "Grow graph lane limit"@ {
        Some("Augmenter la limite de voies du graphe"@)
    } else {
        None
    }
}

pub open spec fn russian(key: Seq<char>) -> Option<Seq<char>> {
    if key == " background:"@ {
        Some(" фоновые задачи:"@)
    } else if key == "file watcher"@ {
        Some("наблюдение за файлами"@)
    } else if key == "Toggle file watcher"@ {
        Some("Переключить наблюдение за файлами"@)
    } else if key == "Shrink graph lane limit"@ {
        Some("Уменьшить лимит дорожек графа"@)
    } else if key == "Grow graph lane limit"@ {
        Some("Увеличить лимит дорожек графа"@)
    } else {
        None
    }
}

pub open spec fn turkish(key: Seq<char>) -> Option<Seq<char>> {
    if key == " background:"@ {
        Some(" arka plan:"@)
    } else if key == "file watcher"@ {
        Some("dosya izleyici"@)
    } else if key == "Toggle file watcher"@ {
        Some("Dosya izleyiciyi aç/kapat"@)
    } else if key == "Shrink graph lane limit"@ {
        Some("Grafik şerit sınırını azalt"@)
    } else if key == "Grow graph lane limit"@ {
        Some("Grafik şerit sınırını artır"@)
    } else {
        None
    }
}

/// What a table words `key` as, or `key` itself where the table has no entry.
pub open spec fn looked_up(table: Option<Seq<char>>, key: Seq<char>) -> Seq<char> {
    match table {
        Some(t) => t,
        None => key,
    }
}

pub fn es(key: &'static str) -> (r: &'static str)
    ensures
        r@ == looked_up(spanish(key@), key@),
{
    if same_text(key, " background:") {
        " segundo plano:"
    } else if same_text(key, "file watcher") {
        "monitor de archivos"
    } else if same_text(key, "Toggle file watcher") {
        "Alternar monitor de archivos"
    } else if same_text(key, "Shrink graph lane limit") {
        "Reducir límite de carriles del grafo"
    } else if same_text(key, "Grow graph lane limit") {
        "Aumentar límite de carriles del grafo"
    } else {
        key
    }
}

pub fn fr(key: &'static str) -> (r: &'static str)
    ensures
        r@ == looked_up(french(key@), key@),
{
    if same_text(key, " background:") {
        " arrière-plan :"
    } else if same_text(key, "file watcher") {
        "surveillance de fichiers"
    } else if same_text(key, "Toggle file watcher") {
        "Basculer la surveillance de fichiers"
    } else if same_text(key, "Shrink graph lane limit") {
        "Réduire la limite de voies du graphe"
    } else if same_text(key, "Grow graph lane limit") {
        "Augmenter la limite de voies du graphe"
    } else {
        key
    }
}

pub fn ru(key: &'static str) -> (r: &'static str)
    ensures
        r@ == looked_up(russian(key@), key@),
{
    if same_text(key, " background:") {
        " фоновые задачи:"
    } else if same_text(key, "file watcher") {
        "наблюдение за файлами"
    } else if same_text(key, "Toggle file watcher") {
        "Переключить наблюдение за файлами"
    } else if same_text(key, "Shrink graph lane limit") {
        "Уменьшить лимит дорожек графа"
    } else if same_text(key, "Grow graph lane limit") {
        "Увеличить лимит дорожек графа"
    } else {
        key
    }
}

pub fn tr_tr(key: &'static str) -> (r: &'static str)
    ensures
        r@ == looked_up(turkish(key@), key@),
{
    if same_text(key, " background:") {
        " arka plan:"
    } else if same_text(key, "file watcher") {
        "dosya izleyici"
    } else if same_text(key, "Toggle file watcher") {
        "Dosya izleyiciyi aç/kapat"
    } else if same_text(key, "Shrink graph lane limit") {
        "Grafik şerit sınırını azalt"
    } else if same_text(key, "Grow graph lane limit") {
        "Grafik şerit sınırını artır"
    } else {
        key
    }
}

/// `key` in `language`; English text stands for itself.
pub open spec fn in_language(language: Language, key: Seq<char>) -> Seq<char> {
    match language {
        Language::English => key,
        Language::Spanish => looked_up(spanish(key), key),
        Language::French => looked_up(french(key), key),
        Language::Russian => looked_up(russian(key), key),
        Language::Turkish => looked_up(turkish(key), key),
    }
}

pub fn localise(language: Language, key: &'static str) -> (r: &'static str)
    ensures
        r@ == in_language(language, key@),
{
    match language {
        Language::English => key,
        Language::Spanish => es(key),
        Language::French => fr(key),
        Language::Russian => ru(key),
        Language::Turkish => tr_tr(key),
    }
}

/// The commands that change the graph's lane limit from the keyboard.
#[derive(Clone, Copy, Debug, PartialEq, Eq, Structural)]
pub enum Command {
    ShrinkGraphLaneLimit,
    GrowGraphLaneLimit,
}

pub open spec fn command_english(command: Command) -> Seq<char> {
    match command {
        Command::ShrinkGraphLaneLimit => "Shrink graph lane limit"@,
        Command::GrowGraphLaneLimit => "Grow graph lane limit"@,
    }
}

/// What a command is called in `language`, as the keymap help shows it.
pub fn command_to_visual_string(language: Language, command: &Command) -> (r: &'static str)
    ensures
        r@ == in_language(language, command_english(*command)),
{
    let english = match command {
        Command::ShrinkGraphLaneLimit => "Shrink graph lane limit",
        Command::GrowGraphLaneLimit => "Grow graph lane limit",
    };
    localise(language, english)
}

} // verus!
