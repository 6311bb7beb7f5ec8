//! Small catalog-based localization layer with English fallback.
//!
//! Catalogs are flat JSON objects from message keys to text. A lookup tries
//! the current locale, then English, and finally gives the key back, so a
//! missing translation never leaves an empty label.

use vstd::prelude::*;
use crate::text::{chars_of, chars_eq, chars_eq_str, normalized, normal_form, starts_with, starts_with_str, string_from_chars, occurs_at, occurs_at_exec};

verus! {

#[derive(Clone, Copy, Debug, PartialEq, Eq, Structural)]
pub enum Locale {
    English,
    Spanish,
    French,
}

impl Default for Locale {
    fn default() -> (locale: Self)
        ensures
            locale == Locale::English,
    {
        Locale::English
    }
}

/// The locale a normalised (trimmed, lower-cased) language tag selects:
/// a bare language code or one followed by `-` or `_` and a region.
pub open spec fn spec_locale_from_normal(tag: Seq<char>) -> Locale {
    if tag == "es"@ || starts_with(tag, "es-"@) || starts_with(tag, "es_"@) {
        Locale::Spanish
    } else if tag == "fr"@ || starts_with(tag, "fr-"@) || starts_with(tag, "fr_"@) {
        Locale::French
    } else {
        Locale::English
    }
}

pub open spec fn spec_locale_code(locale: Locale) -> Seq<char> {
    match locale {
        Locale::English => "en"@,
        Locale::Spanish => "es"@,
        Locale::French => "fr"@,
    }
}

pub open spec fn spec_locale_native_name(locale: Locale) -> Seq<char> {
    match locale {
        Locale::English => "English"@,
        Locale::Spanish => "Español"@,
        Locale::French => "Français"@,
    }
}

impl Locale {
    pub const ALL: [Locale; 3] = [Locale::English, Locale::Spanish, Locale::French];

    /// Read a language tag such as `es`, `fr-CA` or ` ES_mx `; anything else
    /// is English.
    pub fn parse(value: &str) -> (locale: Self)
        ensures
            locale == spec_locale_from_normal(normal_form(value@)),
    {
        let tag = normalized(value);
        let tag = tag.as_slice();
        if chars_eq_str(tag, "es") || starts_with_str(tag, "es-") || starts_with_str(tag, "es_") {
            Locale::Spanish
        } else if chars_eq_str(tag, "fr") || starts_with_str(tag, "fr-") || starts_with_str(tag, "fr_") {
            Locale::French
        } else {
            Locale::English
        }
    }

    pub fn code(self) -> (code: &'static str)
        ensures
            code@ == spec_locale_code(self),
    {
        match self {
            Locale::English => "en",
            Locale::Spanish => "es",
            Locale::French => "fr",
        }
    }

    pub fn native_name(self) -> (name: &'static str)
        ensures
            name@ == spec_locale_native_name(self),
    {
        match self {
            Locale::English => "English",
            Locale::Spanish => "Español",
            Locale::French => "Français",
        }
    }
}

/// A locale's own code reads back as that locale.
pub proof fn lemma_locale_code_round_trip(locale: Locale)
    ensures
        spec_locale_from_normal(normal_form(spec_locale_code(locale))) == locale,
{
    reveal_strlit("en");
    reveal_strlit("es");
    reveal_strlit("fr");
    reveal_strlit("es-");
    reveal_strlit("es_");
    reveal_strlit("fr-");
    reveal_strlit("fr_");
    let code = spec_locale_code(locale);
    assert(crate::text::trim_start(code) == code);
    assert(crate::text::trim_end(code) == code);
    assert(normal_form(code) =~= code);
    assert(!starts_with("en"@, "es-"@));
    assert(!starts_with("en"@, "es_"@));
    assert(!starts_with("en"@, "fr-"@));
    assert(!starts_with("en"@, "fr_"@));
    assert(!starts_with("fr"@, "es-"@));
    assert(!starts_with("fr"@, "es_"@));
}

/// The English catalog.
pub const ENGLISH_CATALOG: &'static str = "{\"status.connected\":\"Connected port {output} to {input}\",\"status.disconnected\":\"Disconnected port {output} from {input}\",\"status.ready\":\"Ready\",\"toolbar.connect\":\"Connect\",\"toolbar.disconnect\":\"Disconnect\",\"toolbar.redo\":\"Redo\",\"toolbar.refresh\":\"Refresh\",\"toolbar.undo\":\"Undo\"}";

/// The Spanish catalog.
pub const SPANISH_CATALOG: &'static str = "{\"status.connected\":\"Puerto {output} conectado a {input}\",\"status.disconnected\":\"Puerto {output} desconectado de {input}\",\"status.ready\":\"Listo\",\"toolbar.connect\":\"Conectar\",\"toolbar.disconnect\":\"Desconectar\",\"toolbar.redo\":\"Rehacer\",\"toolbar.refresh\":\"Actualizar\",\"toolbar.undo\":\"Deshacer\"}";

/// The French catalog.
pub const FRENCH_CATALOG: &'static str = "{\"status.connected\":\"Port {output} connecté à {input}\",\"status.disconnected\":\"Port {output} déconnecté de {input}\",\"status.ready\":\"Prêt\",\"toolbar.connect\":\"Connecter\",\"toolbar.disconnect\":\"Déconnecter\",\"toolbar.redo\":\"Rétablir\",\"toolbar.refresh\":\"Actualiser\",\"toolbar.undo\":\"Annuler\"}";

/// The bundled catalog text of each locale.
pub open spec fn spec_catalog_text(locale: Locale) -> Seq<char> {
    match locale {
        Locale::English => ENGLISH_CATALOG@,
        Locale::Spanish => SPANISH_CATALOG@,
        Locale::French => FRENCH_CATALOG@,
    }
}

/// The entries, in key order, of a JSON object whose values are all strings;
/// `None` for any other text. The result of `serde_json::from_str` into a
/// `BTreeMap<String, String>`.
pub uninterp spec fn json_string_map(text: Seq<char>) -> Option<Seq<(Seq<char>, Seq<char>)>>;

/// Catalog entries as character sequences.
pub open spec fn entries_view(entries: Seq<(String, String)>) -> Seq<(Seq<char>, Seq<char>)> {
    entries.map_values(|e: (String, String)| (e.0@, e.1@))
}

/// Parse a JSON object of strings into its entries.
///
/// Trusted: calls `serde_json::from_str` into a `BTreeMap<String, String>`
/// and lists the map's entries. The contract only names the result.
#[verifier::external_body]
fn parse_string_map(text: &str) -> (entries: Option<Vec<(String, String)>>)
    ensures
        match entries {
            Some(e) => json_string_map(text@) == Some(entries_view(e@)),
            None => json_string_map(text@) is None,
        },
{
    serde_json::from_str::<std::collections::BTreeMap<String, String>>(text).ok().map(
        |map| map.into_iter().collect(),
    )
}

/// Whether a locale's bundled catalog is a valid JSON object of strings.
pub open spec fn catalog_parses(locale: Locale) -> bool {
    json_string_map(spec_catalog_text(locale)) is Some
}

/// The entries of a locale's bundled catalog.
pub open spec fn spec_catalog(locale: Locale) -> Seq<(Seq<char>, Seq<char>)> {
    json_string_map(spec_catalog_text(locale)).unwrap()
}

/// The text of the first entry with `key`, if any.
pub open spec fn spec_lookup(entries: Seq<(Seq<char>, Seq<char>)>, key: Seq<char>) -> Option<Seq<char>>
    decreases entries.len(),
{
    if entries.len() == 0 {
        None
    } else if entries[0].0 == key {
        Some(entries[0].1)
    } else {
        spec_lookup(entries.drop_first(), key)
    }
}

/// A message: the current locale's text, else the English text, else the key.
pub open spec fn spec_message(
    current: Seq<(Seq<char>, Seq<char>)>,
    english: Seq<(Seq<char>, Seq<char>)>,
    key: Seq<char>,
) -> Seq<char> {
    match spec_lookup(current, key) {
        Some(text) => text,
        None => match spec_lookup(english, key) {
            Some(text) => text,
            None => key,
        },
    }
}

/// `str::replace`: every non-overlapping occurrence of a non-empty `pattern`,
/// scanning left to right, replaced by `with`.
pub open spec fn spec_replace(s: Seq<char>, pattern: Seq<char>, with: Seq<char>) -> Seq<char>
    decreases s.len(),
{
    if pattern.len() == 0 || s.len() == 0 {
        s
    } else if occurs_at(s, pattern, 0) {
        with + spec_replace(s.subrange(pattern.len() as int, s.len() as int), pattern, with)
    } else {
        seq![s[0]] + spec_replace(s.drop_first(), pattern, with)
    }
}

/// The placeholder `{name}`.
pub open spec fn spec_placeholder(name: Seq<char>) -> Seq<char> {
    seq!['{'] + name + seq!['}']
}

/// The variables substituted into a message, first to last.
pub open spec fn spec_substitute(message: Seq<char>, variables: Seq<(Seq<char>, Seq<char>)>) -> Seq<char>
    decreases variables.len(),
{
    if variables.len() == 0 {
        message
    } else {
        spec_substitute(
            spec_replace(message, spec_placeholder(variables[0].0), variables[0].1),
            variables.drop_first(),
        )
    }
}

/// Message catalogs for one locale, with English as the fallback.
#[derive(Debug)]
pub struct I18n {
    locale: Locale,
    english: Vec<(String, String)>,
    current: Vec<(String, String)>,
}

/// The text of the first entry with `key`.
fn lookup(entries: &Vec<(String, String)>, key: &[char]) -> (found: Option<usize>)
    ensures
        match found {
            Some(i) => i < entries@.len() && spec_lookup(entries_view(entries@), key@) == Some(
                entries@[i as int].1@,
            ),
            None => spec_lookup(entries_view(entries@), key@) is None,
        },
{
    let ghost all = entries_view(entries@);
    let mut i: usize = 0;
    assert(all.subrange(0, all.len() as int) =~= all);
    while i < entries.len()
        invariant
            i <= entries@.len(),
            all == entries_view(entries@),
            spec_lookup(all, key@) == spec_lookup(all.subrange(i as int, all.len() as int), key@),
        decreases entries@.len() - i,
    {
        let entry_key = chars_of(entries[i].0.as_str());
        let ghost rest = all.subrange(i as int, all.len() as int);
        assert(rest[0] == (entries@[i as int].0@, entries@[i as int].1@));
        if chars_eq(entry_key.as_slice(), key) {
            return Some(i);
        }
        assert(rest.drop_first() =~= all.subrange(i + 1, all.len() as int));
        i = i + 1;
    }
    None
}

/// `s` with every occurrence of the non-empty `pattern` replaced by `with`.
fn replace_chars(s: &[char], pattern: &[char], with: &[char]) -> (r: Vec<char>)
    requires
        pattern@.len() > 0,
    ensures
        r@ == spec_replace(s@, pattern@, with@),
{
    let mut out: Vec<char> = Vec::new();
    let mut i: usize = 0;
    assert(s@.subrange(0, s@.len() as int) =~= s@);
    assert(out@ + spec_replace(s@, pattern@, with@) =~= spec_replace(s@, pattern@, with@));
    while i < s.len()
        invariant
            pattern@.len() > 0,
            i <= s@.len(),
            out@ + spec_replace(s@.subrange(i as int, s@.len() as int), pattern@, with@)
                == spec_replace(s@, pattern@, with@),
        decreases s@.len() - i,
    {
        let ghost rest = s@.subrange(i as int, s@.len() as int);
        if occurs_at_exec(s, pattern, i) {
            proof {
                assert(rest.subrange(0, pattern@.len() as int) =~= s@.subrange(i as int, i + pattern@.len()));
                assert(occurs_at(rest, pattern@, 0));
                assert(rest.subrange(pattern@.len() as int, rest.len() as int) =~= s@.subrange(
                    i + pattern@.len(),
                    s@.len() as int,
                ));
            }
            let mut j: usize = 0;
            let ghost before = out@;
            while j < with.len()
                invariant
                    j <= with@.len(),
                    out@ == before + with@.subrange(0, j as int),
                decreases with@.len() - j,
            {
                out.push(with[j]);
                j = j + 1;
                assert(out@ =~= before + with@.subrange(0, j as int));
            }
            assert(with@.subrange(0, with@.len() as int) =~= with@);
            assert(out@ + spec_replace(s@.subrange(i + pattern@.len(), s@.len() as int), pattern@, with@)
                =~= before + spec_replace(rest, pattern@, with@));
            i = i + pattern.len();
        } else {
            proof {
                if occurs_at(rest, pattern@, 0) {
                    assert(rest.subrange(0, pattern@.len() as int) =~= s@.subrange(i as int, i + pattern@.len()));
                }
                assert(rest.drop_first() =~= s@.subrange(i + 1, s@.len() as int));
            }
            let ghost before = out@;
            out.push(s[i]);
            assert(out@ + spec_replace(s@.subrange(i + 1, s@.len() as int), pattern@, with@)
                =~= before + spec_replace(rest, pattern@, with@));
            i = i + 1;
        }
    }
    assert(s@.subrange(s@.len() as int, s@.len() as int) =~= Seq::<char>::empty());
    assert(out@ =~= out@ + Seq::<char>::empty());
    out
}

/// The message for `key` from parsed catalog entries: the current locale's
/// text, else the English text, else the key itself.
pub fn message(current: &Vec<(String, String)>, english: &Vec<(String, String)>, key: &str) -> (text: String)
    ensures
        text@ == spec_message(entries_view(current@), entries_view(english@), key@),
{
    let key_chars = chars_of(key);
    match lookup(current, key_chars.as_slice()) {
        Some(i) => current[i].1.clone(),
        None => match lookup(english, key_chars.as_slice()) {
            Some(i) => english[i].1.clone(),
            None => key.to_owned(),
        },
    }
}

/// The characters of a variable set, as character sequences.
pub open spec fn variables_view(variables: Seq<(&str, String)>) -> Seq<(Seq<char>, Seq<char>)> {
    variables.map_values(|v: (&str, String)| (v.0@, v.1@))
}

impl I18n {
    /// The fallback is always the bundled English catalog.
    #[verifier::type_invariant]
    spec fn english_is_bundled(&self) -> bool {
        catalog_parses(Locale::English) && entries_view(self.english@) == spec_catalog(Locale::English)
    }

    /// The catalog entries of the current locale.
    pub closed spec fn current_entries(&self) -> Seq<(Seq<char>, Seq<char>)> {
        entries_view(self.current@)
    }

    /// The English catalog entries.
    pub closed spec fn english_entries(&self) -> Seq<(Seq<char>, Seq<char>)> {
        entries_view(self.english@)
    }

    pub closed spec fn spec_locale(&self) -> Locale {
        self.locale
    }

    fn catalog_text(locale: Locale) -> (text: &'static str)
        ensures
            text@ == spec_catalog_text(locale),
    {
        match locale {
            Locale::English => ENGLISH_CATALOG,
            Locale::Spanish => SPANISH_CATALOG,
            Locale::French => FRENCH_CATALOG,
        }
    }

    fn load(locale: Locale) -> (entries: Option<Vec<(String, String)>>)
        ensures
            match entries {
                Some(e) => catalog_parses(locale) && entries_view(e@) == spec_catalog(locale),
                None => !catalog_parses(locale),
            },
    {
        parse_string_map(Self::catalog_text(locale))
    }

    /// Catalogs for `locale`, or `None` when a bundled catalog is not valid
    /// JSON.
    pub fn try_new(locale: Locale) -> (i18n: Option<Self>)
        ensures
            match i18n {
                Some(i) => {
                    &&& catalog_parses(Locale::English)
                    &&& catalog_parses(locale)
                    &&& i.spec_locale() == locale
                    &&& i.english_entries() == spec_catalog(Locale::English)
                    &&& i.current_entries() == spec_catalog(locale)
                },
                None => !catalog_parses(Locale::English) || !catalog_parses(locale),
            },
    {
        let english = match Self::load(Locale::English) {
            Some(e) => e,
            None => return None,
        };
        let current = match Self::load(locale) {
            Some(c) => c,
            None => return None,
        };
        Some(I18n { locale, english, current })
    }

    /// Catalogs for `locale`. The bundled catalogs are valid JSON.
    pub fn new(locale: Locale) -> (i18n: Self)
        requires
            catalog_parses(Locale::English),
            catalog_parses(locale),
        ensures
            i18n.spec_locale() == locale,
            i18n.english_entries() == spec_catalog(Locale::English),
            i18n.current_entries() == spec_catalog(locale),
    {
        match Self::try_new(locale) {
            Some(i) => i,
            None => {
                assert(false);
                I18n { locale, english: Vec::new(), current: Vec::new() }
            },
        }
    }

    /// Catalogs for the locale a language tag selects.
    pub fn from_language(value: &str) -> (i18n: Self)
        requires
            catalog_parses(Locale::English),
            catalog_parses(spec_locale_from_normal(normal_form(value@))),
        ensures
            i18n.spec_locale() == spec_locale_from_normal(normal_form(value@)),
            i18n.english_entries() == spec_catalog(Locale::English),
            i18n.current_entries() == spec_catalog(spec_locale_from_normal(normal_form(value@))),
    {
        Self::new(Locale::parse(value))
    }

    pub fn locale(&self) -> (locale: Locale)
        ensures
            locale == self.spec_locale(),
    {
        self.locale
    }

    /// Switch to another locale's catalog; the English fallback is kept.
    pub fn set_locale(&mut self, locale: Locale)
        requires
            catalog_parses(locale),
        ensures
            final(self).spec_locale() == locale,
            final(self).english_entries() == old(self).english_entries(),
            final(self).english_entries() == spec_catalog(Locale::English),
            final(self).current_entries() == spec_catalog(locale),
    {
        proof {
            use_type_invariant(&*self);
        }
        match Self::load(locale) {
            Some(current) => {
                self.locale = locale;
                self.current = current;
            },
            None => {
                assert(false);
            },
        }
    }

    /// The message for `key`: the current locale's text, else English, else
    /// the key itself.
    pub fn text(&self, key: &str) -> (message: String)
        ensures
            message@ == spec_message(self.current_entries(), self.english_entries(), key@),
            self.english_entries() == spec_catalog(Locale::English),
    {
        proof {
            use_type_invariant(self);
        }
        message(&self.current, &self.english, key)
    }

    /// Switch to another locale's catalog when it parses; `false`, with
    /// nothing changed, when it does not.
    pub fn try_set_locale(&mut self, locale: Locale) -> (switched: bool)
        ensures
            switched == catalog_parses(locale),
            switched ==> final(self).spec_locale() == locale && final(self).current_entries() == spec_catalog(locale),
            !switched ==> final(self).spec_locale() == old(self).spec_locale() && final(self).current_entries()
                == old(self).current_entries(),
            final(self).english_entries() == old(self).english_entries(),
            final(self).english_entries() == spec_catalog(Locale::English),
    {
        proof {
            use_type_invariant(&*self);
        }
        match Self::load(locale) {
            Some(current) => {
                self.locale = locale;
                self.current = current;
                true
            },
            None => false,
        }
    }

    /// Catalogs for the locale a language tag selects, or `None` when a
    /// bundled catalog is not valid JSON.
    pub fn try_from_language(value: &str) -> (i18n: Option<Self>)
        ensures
            match i18n {
                Some(i) => {
                    &&& i.spec_locale() == spec_locale_from_normal(normal_form(value@))
                    &&& i.english_entries() == spec_catalog(Locale::English)
                    &&& i.current_entries() == spec_catalog(spec_locale_from_normal(normal_form(value@)))
                },
                None => !catalog_parses(Locale::English) || !catalog_parses(
                    spec_locale_from_normal(normal_form(value@)),
                ),
            },
    {
        Self::try_new(Locale::parse(value))
    }

    /// The message for `key` with each `{name}` replaced by its value, the
    /// variables applied first to last.
    pub fn format(&self, key: &str, variables: &[(&str, String)]) -> (message: String)
        ensures
            message@ == spec_substitute(
                spec_message(self.current_entries(), self.english_entries(), key@),
                variables_view(variables@),
            ),
    {
        let text = self.text(key);
        let mut message = chars_of(text.as_str());
        let ghost vars = variables_view(variables@);
        let mut i: usize = 0;
        assert(vars.subrange(0, vars.len() as int) =~= vars);
        while i < variables.len()
            invariant
                i <= variables@.len(),
                vars == variables_view(variables@),
                spec_substitute(message@, vars.subrange(i as int, vars.len() as int))
                    == spec_substitute(text@, vars),
            decreases variables@.len() - i,
        {
            let (name, value) = &variables[i];
            let name_chars = chars_of(name);
            let mut pattern: Vec<char> = Vec::new();
            pattern.push('{');
            let mut j: usize = 0;
            while j < name_chars.len()
                invariant
                    j <= name_chars@.len(),
                    pattern@ == seq!['{'] + name_chars@.subrange(0, j as int),
                decreases name_chars@.len() - j,
            {
                pattern.push(name_chars[j]);
                j = j + 1;
                assert(pattern@ =~= seq!['{'] + name_chars@.subrange(0, j as int));
            }
            pattern.push('}');
            assert(name_chars@.subrange(0, name_chars@.len() as int) =~= name_chars@);
            assert(pattern@ =~= spec_placeholder(name@));
            let value_chars = chars_of(value.as_str());
            let replaced = replace_chars(message.as_slice(), pattern.as_slice(), value_chars.as_slice());
            proof {
                let rest = vars.subrange(i as int, vars.len() as int);
                assert(rest[0] == (name@, value@));
                assert(rest.drop_first() =~= vars.subrange(i + 1, vars.len() as int));
            }
            message = replaced;
            i = i + 1;
        }
        assert(vars.subrange(vars.len() as int, vars.len() as int) =~= Seq::<(Seq<char>, Seq<char>)>::empty());
        string_from_chars(message.as_slice())
    }
}

} // verus!
