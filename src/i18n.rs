use vstd::prelude::*;

verus! {

/// The texts of one language, as (key, text) pairs with distinct keys.
#[derive(Clone, Debug)]
pub struct Locale {
    pub lang: String,
    pub entries: Vec<(String, String)>,
}

/// Localized texts, with a current language and English as the fallback.
#[derive(Clone, Debug)]
pub struct I18n {
    pub current_lang: String,
    pub locales: Vec<Locale>,
}

/// `i` is the first index of `es` whose key is `key`.
pub open spec fn first_key_at(es: Seq<(String, String)>, key: Seq<char>, i: int) -> bool {
    0 <= i < es.len() && es[i].0@ == key && forall|j: int| 0 <= j < i ==> es[j].0@ != key
}

/// The text that `es` gives for `key`, from its first entry with that key.
pub open spec fn entry_text(es: Seq<(String, String)>, key: Seq<char>) -> Option<Seq<char>> {
    if exists|i: int| first_key_at(es, key, i) {
        Some(es[choose|i: int| first_key_at(es, key, i)].1@)
    } else {
        None
    }
}

/// `i` is the first index of `ls` whose language is `lang`.
pub open spec fn first_lang_at(ls: Seq<Locale>, lang: Seq<char>, i: int) -> bool {
    0 <= i < ls.len() && ls[i].lang@ == lang && forall|j: int| 0 <= j < i ==> ls[j].lang@ != lang
}

/// The text for `key` in language `lang`.
pub open spec fn locale_text(ls: Seq<Locale>, lang: Seq<char>, key: Seq<char>) -> Option<Seq<char>> {
    if exists|i: int| first_lang_at(ls, lang, i) {
        entry_text(ls[choose|i: int| first_lang_at(ls, lang, i)].entries@, key)
    } else {
        None
    }
}

/// What `text` answers: the current language's text, else the English one,
/// else a marker naming the missing key.
pub open spec fn text_for(ls: Seq<Locale>, lang: Seq<char>, key: Seq<char>) -> Seq<char> {
    match locale_text(ls, lang, key) {
        Some(t) => t,
        None => match locale_text(ls, "en"@, key) {
            Some(t) => t,
            None => ">_< missing:"@ + key,
        },
    }
}

fn find_entry(es: &Vec<(String, String)>, key: &str) -> (r: Option<usize>)
    ensures
        r matches Some(i) ==> first_key_at(es@, key@, i as int),
        r is None ==> !exists|i: int| first_key_at(es@, key@, i),
{
    let mut i: usize = 0;
    while i < es.len()
        invariant
            i <= es@.len(),
            forall|j: int| 0 <= j < i ==> es@[j].0@ != key@,
        decreases es@.len() - i,
    {
        if crate::text::text_eq(es[i].0.as_str(), key) {
            return Some(i);
        }
        i = i + 1;
    }
    None
}

fn find_locale(ls: &Vec<Locale>, lang: &str) -> (r: Option<usize>)
    ensures
        r matches Some(i) ==> first_lang_at(ls@, lang@, i as int),
        r is None ==> !exists|i: int| first_lang_at(ls@, lang@, i),
        r is None ==> forall|j: int| 0 <= j < ls@.len() ==> ls@[j].lang@ != lang@,
{
    let mut i: usize = 0;
    while i < ls.len()
        invariant
            i <= ls@.len(),
            forall|j: int| 0 <= j < i ==> ls@[j].lang@ != lang@,
        decreases ls@.len() - i,
    {
        if crate::text::text_eq(ls[i].lang.as_str(), lang) {
            return Some(i);
        }
        i = i + 1;
    }
    None
}

proof fn lemma_first_key_unique(es: Seq<(String, String)>, key: Seq<char>, i: int)
    requires
        first_key_at(es, key, i),
    ensures
        (choose|k: int| first_key_at(es, key, k)) == i,
{
    let k = choose|k: int| first_key_at(es, key, k);
    assert(first_key_at(es, key, k));
    if k < i {
        assert(es[k].0@ != key);
    } else if k > i {
        assert(es[i].0@ != key);
    }
}

proof fn lemma_first_lang_unique(ls: Seq<Locale>, lang: Seq<char>, i: int)
    requires
        first_lang_at(ls, lang, i),
    ensures
        (choose|k: int| first_lang_at(ls, lang, k)) == i,
{
    let k = choose|k: int| first_lang_at(ls, lang, k);
    assert(first_lang_at(ls, lang, k));
    if k < i {
        assert(ls[k].lang@ != lang);
    } else if k > i {
        assert(ls[i].lang@ != lang);
    }
}

/// Replacing or appending a locale of language `lang` leaves the lookups of
/// every other language as they were.
proof fn lemma_other_langs_kept(ls: Seq<Locale>, ns: Seq<Locale>, lang: Seq<char>, other: Seq<char>, key: Seq<char>)
    requires
        other != lang,
        ns.len() >= ls.len(),
        forall|j: int| 0 <= j < ls.len() && ls[j].lang@ != lang ==> ns[j] == ls[j],
        forall|j: int| 0 <= j < ns.len() && (j >= ls.len() || ls[j].lang@ == lang) ==> ns[j].lang@ == lang,
    ensures
        locale_text(ns, other, key) == locale_text(ls, other, key),
{
    if exists|i: int| first_lang_at(ls, other, i) {
        let i = choose|i: int| first_lang_at(ls, other, i);
        assert(first_lang_at(ns, other, i)) by {
            assert forall|j: int| 0 <= j < i implies ns[j].lang@ != other by {
                if ls[j].lang@ != lang {
                    assert(ns[j] == ls[j]);
                }
            }
        }
        lemma_first_lang_unique(ns, other, i);
    } else {
        assert(!exists|i: int| first_lang_at(ns, other, i)) by {
            if exists|i: int| first_lang_at(ns, other, i) {
                let i = choose|i: int| first_lang_at(ns, other, i);
                assert(i < ls.len() && ls[i].lang@ != lang);
                assert(ns[i] == ls[i]);
                assert(first_lang_at(ls, other, i)) by {
                    assert forall|j: int| 0 <= j < i implies ls[j].lang@ != other by {
                        if ls[j].lang@ != lang {
                            assert(ns[j] == ls[j]);
                        }
                    }
                }
            }
        }
    }
}

impl I18n {
    /// English is the current language; no texts are loaded.
    pub fn new() -> (r: I18n)
        ensures
            r.current_lang@ == "en"@,
            r.locales@.len() == 0,
    {
        I18n { current_lang: "en".to_string(), locales: Vec::new() }
    }

    /// Installs the texts of `lang`, replacing those it had.
    pub fn load_locale(&mut self, lang: &str, entries: Vec<(String, String)>)
        ensures
            final(self).current_lang == old(self).current_lang,
            forall|key: Seq<char>| #[trigger] locale_text(final(self).locales@, lang@, key) == entry_text(entries@, key),
            forall|other: Seq<char>, key: Seq<char>| other != lang@ ==> #[trigger] locale_text(final(self).locales@, other, key)
                == locale_text(old(self).locales@, other, key),
    {
        let loc = Locale { lang: lang.to_string(), entries };
        let ghost ls = self.locales@;
        match find_locale(&self.locales, lang) {
            Some(i) => {
                self.locales.set(i, loc);
                proof {
                    assert(first_lang_at(self.locales@, lang@, i as int));
                    lemma_first_lang_unique(self.locales@, lang@, i as int);
                    assert forall|other: Seq<char>, key: Seq<char>| other != lang@ implies #[trigger] locale_text(
                        self.locales@,
                        other,
                        key,
                    ) == locale_text(ls, other, key) by {
                        lemma_other_langs_kept(ls, self.locales@, lang@, other, key);
                    }
                }
            },
            None => {
                self.locales.push(loc);
                proof {
                    let n = self.locales@.len() - 1;
                    assert(self.locales@[n].lang@ == lang@);
                    assert(first_lang_at(self.locales@, lang@, n));
                    lemma_first_lang_unique(self.locales@, lang@, n);
                    assert forall|other: Seq<char>, key: Seq<char>| other != lang@ implies #[trigger] locale_text(
                        self.locales@,
                        other,
                        key,
                    ) == locale_text(ls, other, key) by {
                        lemma_other_langs_kept(ls, self.locales@, lang@, other, key);
                    }
                }
            },
        }
    }

    /// Switches the current language.
    pub fn set_lang(&mut self, lang: &str)
        ensures
            final(self).current_lang@ == lang@,
            final(self).locales == old(self).locales,
    {
        self.current_lang = lang.to_string();
    }

    pub fn get_lang(&self) -> (r: String)
        ensures
            r@ == self.current_lang@,
    {
        self.current_lang.clone()
    }

    fn lookup(&self, lang: &str, key: &str) -> (r: Option<String>)
        ensures
            r matches Some(t) ==> locale_text(self.locales@, lang@, key@) == Some(t@),
            r is None ==> locale_text(self.locales@, lang@, key@) is None,
    {
        match find_locale(&self.locales, lang) {
            Some(i) => {
                proof {
                    lemma_first_lang_unique(self.locales@, lang@, i as int);
                }
                match find_entry(&self.locales[i].entries, key) {
                    Some(j) => {
                        proof {
                            lemma_first_key_unique(self.locales@[i as int].entries@, key@, j as int);
                        }
                        Some(self.locales[i].entries[j].1.clone())
                    },
                    None => None,
                }
            },
            None => None,
        }
    }

    /// The text for `key` in the current language, else in English, else a
    /// marker naming the missing key.
    pub fn text(&self, key: &str) -> (r: String)
        ensures
            r@ == text_for(self.locales@, self.current_lang@, key@),
    {
        match self.lookup(self.current_lang.as_str(), key) {
            Some(t) => t,
            None => match self.lookup("en", key) {
                Some(t) => t,
                None => ">_< missing:".to_string().concat(key),
            },
        }
    }
}

} // verus!
