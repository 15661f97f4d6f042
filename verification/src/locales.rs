//! The languages the bot speaks and the translated texts it sends.

use vstd::prelude::*;
use vstd::hash_map::StringHashMap;
use crate::text::{ascii_lower, chars_of, lower_chars, str_eq, string_of};
use crate::handlers::{keyboard_view, laid_out, language_button_data, Button};

verus! {

#[verifier::external_type_specification]
#[verifier::external_body]
#[verifier::reject_recursive_types(R)]
#[verifier::reject_recursive_types(M)]
pub struct ExFluentBundle<R, M>(fluent::bundle::FluentBundle<R, M>);

#[verifier::external_type_specification]
#[verifier::external_body]
pub struct ExFluentResource(fluent::FluentResource);

#[verifier::external_type_specification]
#[verifier::external_body]
pub struct ExIntlLangMemoizer(intl_memoizer::concurrent::IntlLangMemoizer);

#[verifier::external_type_specification]
#[verifier::external_body]
pub struct ExLanguageIdentifier(unic_langid::LanguageIdentifier);

/// Whether `unic_langid` accepts a text as a language identifier.
pub uninterp spec fn language_id_accepts(code: Seq<char>) -> bool;

/// What `fluent::FluentResource::try_new` makes of a text: `None` when parsing
/// reports errors, else its message and term entries in their order in the
/// text, each as its id and whether it is a message with a value (a message may
/// carry attributes only).
pub uninterp spec fn ftl_entries(source: Seq<char>) -> Option<Seq<(Seq<char>, bool)>>;

/// What a resource holds, as far as a bundle needs it: its message and term
/// entries in order, each as its id and whether it is a message with a value.
pub uninterp spec fn resource_entries(res: fluent::FluentResource) -> Seq<(Seq<char>, bool)>;

/// What a resource holds: the FTL source text it was parsed from.
pub uninterp spec fn resource_source(res: fluent::FluentResource) -> Seq<char>;

/// What a bundle holds, as far as adding a resource needs it: the ids of the
/// messages and terms it already has.
pub uninterp spec fn bundle_entry_ids(bundle: fluent::concurrent::FluentBundle<fluent::FluentResource>) -> Set<Seq<char>>;

/// What a bundle holds: the FTL source texts of its resources, in the order
/// they were added.
pub uninterp spec fn bundle_sources(bundle: fluent::concurrent::FluentBundle<fluent::FluentResource>) -> Seq<Seq<char>>;

/// What a bundle holds, as far as formatting needs it: the ids of its messages
/// that have a value.
pub uninterp spec fn bundle_valued_messages(bundle: fluent::concurrent::FluentBundle<fluent::FluentResource>) -> Set<Seq<char>>;

/// What a bundle holds, as far as formatting gives it: for a message id and the
/// arguments handed to the formatter (none, or name and value pairs), the text.
pub uninterp spec fn bundle_texts(
    bundle: fluent::concurrent::FluentBundle<fluent::FluentResource>,
) -> Map<(Seq<char>, Option<Seq<(Seq<char>, Seq<char>)>>), Seq<char>>;

/// The ids of a list of entries, in order.
pub open spec fn entry_ids(es: Seq<(Seq<char>, bool)>) -> Seq<Seq<char>> {
    es.map_values(|e: (Seq<char>, bool)| e.0)
}

/// The ids of the entries that are messages with a value.
pub open spec fn valued_ids(es: Seq<(Seq<char>, bool)>) -> Set<Seq<char>> {
    Set::new(|id: Seq<char>| exists|k: int| 0 <= k < es.len() && #[trigger] es[k] == (id, true))
}

/// `str::parse::<unic_langid::LanguageIdentifier>`: `Some` exactly when the
/// text is accepted, which is taken to depend on the text alone. What the
/// identifier holds is not stated.
#[verifier::external_body]
fn parse_language_id(code: &str) -> (r: Option<unic_langid::LanguageIdentifier>)
    ensures
        r is Some <==> language_id_accepts(code@),
{
    match code.parse::<unic_langid::LanguageIdentifier>() {
        Ok(id) => Some(id),
        Err(_) => None,
    }
}

/// `fluent::FluentResource::try_new`: `Some` exactly when the source parses
/// without errors; the resource then holds the entries the source gives, and
/// keeps the source.
#[verifier::external_body]
fn parse_ftl(source: String) -> (r: Option<fluent::FluentResource>)
    ensures
        match r {
            Some(res) => ftl_entries(source@) == Some(resource_entries(res)) && resource_source(res) == source@,
            None => ftl_entries(source@) is None,
        },
{
    match fluent::FluentResource::try_new(source) {
        Ok(res) => Some(res),
        Err(_) => None,
    }
}

/// `fluent::concurrent::FluentBundle::new_concurrent` for one locale: a bundle
/// without resources, so with no message or term.
#[verifier::external_body]
fn new_bundle(lang: unic_langid::LanguageIdentifier) -> (r: fluent::concurrent::FluentBundle<fluent::FluentResource>)
    ensures
        bundle_entry_ids(r) == Set::<Seq<char>>::empty(),
        bundle_sources(r) == Seq::<Seq<char>>::empty(),
        bundle_valued_messages(r) == Set::<Seq<char>>::empty(),
{
    fluent::concurrent::FluentBundle::new_concurrent(vec![lang])
}

/// `FluentBundle::add_resource`. Each entry of the resource is entered under its
/// id unless the bundle already holds that id, from before or from an earlier
/// entry of the same resource; each such id gives an error, and the first entry
/// under an id stays. The resource is kept in any case. So the bundle then
/// holds the old ids and those of the resource, and the resource's source
/// after the old ones; the result is `true` exactly when the ids of the
/// resource are distinct and new to the bundle, and then its messages with a
/// value are added to those of the bundle.
#[verifier::external_body]
fn add_resource(bundle: &mut fluent::concurrent::FluentBundle<fluent::FluentResource>, res: fluent::FluentResource) -> (r: bool)
    ensures
        r <==> (entry_ids(resource_entries(res)).no_duplicates() && forall|i: int|
            0 <= i < resource_entries(res).len() ==> !bundle_entry_ids(*old(bundle)).contains(
                #[trigger] resource_entries(res)[i].0,
            )),
        bundle_entry_ids(*final(bundle)) == bundle_entry_ids(*old(bundle)).union(entry_ids(resource_entries(res)).to_set()),
        bundle_sources(*final(bundle)) == bundle_sources(*old(bundle)).push(resource_source(res)),
        r ==> bundle_valued_messages(*final(bundle)) == bundle_valued_messages(*old(bundle)).union(
            valued_ids(resource_entries(res)),
        ),
{
    bundle.add_resource(res).is_ok()
}

/// Name and value pairs as plain texts.
pub open spec fn args_view(args: Seq<(String, String)>) -> Seq<(Seq<char>, Seq<char>)> {
    args.map_values(|p: (String, String)| (p.0@, p.1@))
}

/// The arguments handed to the formatter, as plain texts.
pub open spec fn passed_args_view(args: Option<&[(String, String)]>) -> Option<Seq<(Seq<char>, Seq<char>)>> {
    match args {
        Some(a) => Some(args_view(a@)),
        None => None,
    }
}

/// The text of message `key` of a bundle, formatted with `args` (each value a
/// string argument): the message is looked up with `FluentBundle::get_message`,
/// its pattern taken with `FluentMessage::value`, and formatted with
/// `FluentBundle::format_pattern`, which always gives a text. So the result is
/// `Some` exactly when the bundle holds message `key` with a value, and then it
/// is the text the bundle gives for the key and the arguments.
#[verifier::external_body]
fn format_message(
    bundle: &fluent::concurrent::FluentBundle<fluent::FluentResource>,
    key: &str,
    args: Option<&[(String, String)]>,
) -> (r: Option<String>)
    ensures
        match r {
            Some(t) => bundle_valued_messages(*bundle).contains(key@) && bundle_texts(*bundle).dom().contains(
                (key@, passed_args_view(args)),
            ) && t@ == bundle_texts(*bundle)[(key@, passed_args_view(args))],
            None => !bundle_valued_messages(*bundle).contains(key@),
        },
{
    let pattern = bundle.get_message(key)?.value()?;
    let fluent_args: Option<fluent::FluentArgs> =
        args.map(|a| a.iter().map(|(k, v)| (k.as_str(), fluent::FluentValue::from(v.as_str()))).collect());
    let mut errors = Vec::new();
    Some(bundle.format_pattern(pattern, fluent_args.as_ref(), &mut errors).into_owned())
}

/// A language offered to users: its code and its name in that language.
#[derive(Debug, Clone, Copy)]
pub struct LanguageOption {
    pub code: &'static str,
    pub name: &'static str,
}

/// The codes of the offered languages, in the order they are offered.
pub open spec fn language_codes() -> Seq<Seq<char>> {
    seq!["tr"@, "en"@, "es"@, "it"@, "ru"@, "fr"@, "de"@, "mi"@]
}

/// The names of the offered languages, in the same order.
pub open spec fn language_names() -> Seq<Seq<char>> {
    seq!["Turkce"@, "English"@, "Espanol"@, "Italiano"@, "Русский"@, "Francais"@, "Deutsch"@,
        "Te Reo Maori"@]
}

/// The offered languages, in order.
pub fn supported_languages() -> (r: Vec<LanguageOption>)
    ensures
        r@.len() == 8,
        forall|i: int| 0 <= i < 8 ==> (#[trigger] r@[i]).code@ == language_codes()[i] && r@[i].name@
            == language_names()[i],
{
    let mut r: Vec<LanguageOption> = Vec::new();
    r.push(LanguageOption { code: "tr", name: "Turkce" });
    r.push(LanguageOption { code: "en", name: "English" });
    r.push(LanguageOption { code: "es", name: "Espanol" });
    r.push(LanguageOption { code: "it", name: "Italiano" });
    r.push(LanguageOption { code: "ru", name: "Русский" });
    r.push(LanguageOption { code: "fr", name: "Francais" });
    r.push(LanguageOption { code: "de", name: "Deutsch" });
    r.push(LanguageOption { code: "mi", name: "Te Reo Maori" });
    r
}

/// The name of a language by its code, English for an unknown code.
pub open spec fn language_name_spec(code: Seq<char>) -> Seq<char> {
    if code == "tr"@ {
        "Turkce"@
    } else if code == "en"@ {
        "English"@
    } else if code == "es"@ {
        "Espanol"@
    } else if code == "it"@ {
        "Italiano"@
    } else if code == "ru"@ {
        "Русский"@
    } else if code == "fr"@ {
        "Francais"@
    } else if code == "de"@ {
        "Deutsch"@
    } else if code == "mi"@ {
        "Te Reo Maori"@
    } else {
        "English"@
    }
}

/// The keyboard of language buttons, two to a row.
pub open spec fn language_buttons() -> Seq<(Seq<char>, Seq<char>)> {
    Seq::new(8, |i: int| (language_names()[i], language_button_data(language_codes()[i])))
}

/// The first part of a language tag (up to the first `-` or `_`).
pub open spec fn primary_subtag(s: Seq<char>) -> Seq<char>
    decreases s.len(),
{
    if s.len() > 0 && s[0] != '-' && s[0] != '_' {
        seq![s[0]] + primary_subtag(s.drop_first())
    } else {
        Seq::<char>::empty()
    }
}

/// Why the translations could not be loaded.
#[derive(Debug, Clone)]
pub enum I18nError {
    /// A language code that is not a language identifier.
    InvalidLanguage(String),
    /// A translation file that does not parse.
    InvalidResource(String),
    /// A translation file that could not be added to its bundle.
    ResourceRejected(String),
}

/// The translations of the bot, one bundle per language code.
pub struct I18n {
    bundles: StringHashMap<fluent::concurrent::FluentBundle<fluent::FluentResource>>,
    fallback: String,
}

impl I18n {
    /// The codes of the languages that have translations.
    pub closed spec fn languages(&self) -> Set<Seq<char>> {
        self.bundles@.dom()
    }

    /// The language used when a user's is not supported.
    pub closed spec fn fallback_code(&self) -> Seq<char> {
        self.fallback@
    }

    /// The language whose translations answer a request in `code`: `code`
    /// itself when it has translations, else the fallback.
    pub open spec fn chosen_language(&self, code: Seq<char>) -> Seq<char> {
        if self.languages().contains(code) {
            code
        } else {
            self.fallback_code()
        }
    }

    /// The FTL sources held for language `code`, in the order they were added.
    pub closed spec fn sources(&self, code: Seq<char>) -> Seq<Seq<char>> {
        bundle_sources(self.bundles@[code])
    }

    /// The messages with a value held for language `code`.
    pub closed spec fn messages(&self, code: Seq<char>) -> Set<Seq<char>> {
        bundle_valued_messages(self.bundles@[code])
    }

    /// The texts that the translations of language `code` give, by message id
    /// and the arguments handed to the formatter.
    pub closed spec fn texts(&self, code: Seq<char>) -> Map<(Seq<char>, Option<Seq<(Seq<char>, Seq<char>)>>), Seq<char>> {
        bundle_texts(self.bundles@[code])
    }

    /// The translation of message `key` in language `code` with the arguments
    /// `args`: the text its translations give when they hold the message with a
    /// value (the arguments are handed over only when there are any), else none.
    pub open spec fn text(&self, code: Seq<char>, key: Seq<char>, args: Seq<(Seq<char>, Seq<char>)>) -> Option<
        Seq<char>,
    > {
        if self.languages().contains(code) && self.messages(code).contains(key) {
            Some(self.texts(code)[(key, if args.len() == 0 { None } else { Some(args) })])
        } else {
            None
        }
    }
}

/// A bundle that holds exactly the FTL source `source`, with its messages.
spec fn holds_source(b: fluent::concurrent::FluentBundle<fluent::FluentResource>, source: Seq<char>) -> bool {
    &&& bundle_sources(b) == seq![source]
    &&& bundle_valued_messages(b) == valued_ids(ftl_entries(source)->0)
}

/// No later translation file of the list has the same code as the `k`-th.
pub open spec fn last_for_code(rs: Seq<(String, String)>, k: int) -> bool {
    forall|j: int| k < j < rs.len() ==> (#[trigger] rs[j]).0@ != rs[k].0@
}

/// A translation file that is well formed: its code is a language identifier and
/// its source parses.
pub open spec fn resource_ok(r: (String, String)) -> bool {
    language_id_accepts(r.0@) && ftl_entries(r.1@) is Some
}

/// A translation file that loads: well formed, and its entries have distinct
/// ids, so that its bundle takes it without error.
pub open spec fn resource_loads(r: (String, String)) -> bool {
    resource_ok(r) && entry_ids(ftl_entries(r.1@)->0).no_duplicates()
}

/// The codes of a list of translation files.
pub open spec fn resource_codes(rs: Seq<(String, String)>) -> Set<Seq<char>> {
    Set::new(|c: Seq<char>| exists|k: int| 0 <= k < rs.len() && (#[trigger] rs[k]).0@ == c)
}

impl I18n {
    /// Loads the translations: one bundle per `(code, FTL source)` pair, English
    /// as the fallback. Fails at the first pair whose code or source is refused.
    pub fn new(resources: &Vec<(String, String)>) -> (r: Result<I18n, I18nError>)
        ensures
            r is Ok <==> forall|k: int| 0 <= k < resources@.len() ==> resource_loads(#[trigger] resources@[k]),
            match r {
                Ok(i) => {
                    &&& i.languages() == resource_codes(resources@)
                    &&& i.fallback_code() == "en"@
                    &&& forall|k: int|
                        0 <= k < resources@.len() && last_for_code(resources@, k) ==> i.sources(
                            (#[trigger] resources@[k]).0@,
                        ) == seq![resources@[k].1@] && i.messages(resources@[k].0@) == valued_ids(
                            ftl_entries(resources@[k].1@)->0,
                        )
                },
                Err(I18nError::InvalidLanguage(c)) => exists|k: int|
                    0 <= k < resources@.len() && (#[trigger] resources@[k]).0@ == c@ && !language_id_accepts(c@)
                        && forall|j: int| 0 <= j < k ==> resource_loads(#[trigger] resources@[j]),
                Err(I18nError::InvalidResource(c)) => exists|k: int|
                    0 <= k < resources@.len() && (#[trigger] resources@[k]).0@ == c@ && language_id_accepts(c@)
                        && ftl_entries(resources@[k].1@) is None && forall|j: int| 0 <= j < k ==> resource_loads(#[trigger] resources@[j]),
                Err(I18nError::ResourceRejected(c)) => exists|k: int|
                    0 <= k < resources@.len() && (#[trigger] resources@[k]).0@ == c@ && resource_ok(resources@[k])
                        && !resource_loads(resources@[k])
                        && forall|j: int| 0 <= j < k ==> resource_loads(#[trigger] resources@[j]),
            },
    {
        let mut bundles: StringHashMap<fluent::concurrent::FluentBundle<fluent::FluentResource>> = StringHashMap::new();
        let mut i: usize = 0;
        while i < resources.len()
            invariant
                i <= resources@.len(),
                bundles@.dom() == resource_codes(resources@.subrange(0, i as int)),
                forall|j: int| 0 <= j < i ==> resource_loads(#[trigger] resources@[j]),
                forall|k: int|
                    0 <= k < i && last_for_code(resources@.subrange(0, i as int), k) ==> holds_source(
                        bundles@[(#[trigger] resources@[k]).0@],
                        resources@[k].1@,
                    ),
            decreases resources@.len() - i,
        {
            let code = &resources[i].0;
            let lang = match parse_language_id(code.as_str()) {
                Some(l) => l,
                None => {
                    return Err(I18nError::InvalidLanguage(code.clone()));
                },
            };
            let res = match parse_ftl(resources[i].1.clone()) {
                Some(r) => r,
                None => {
                    return Err(I18nError::InvalidResource(code.clone()));
                },
            };
            let mut bundle = new_bundle(lang);
            if !add_resource(&mut bundle, res) {
                return Err(I18nError::ResourceRejected(code.clone()));
            }
            proof {
                assert(bundle_sources(bundle) =~= seq![resources@[i as int].1@]);
                assert(bundle_valued_messages(bundle) =~= valued_ids(ftl_entries(resources@[i as int].1@)->0));
            }
            let ghost old_b = bundles@;
            bundles.insert(code.clone(), bundle);
            proof {
                let pre = resources@.subrange(0, i as int);
                let post = resources@.subrange(0, i + 1);
                assert forall|k: int| 0 <= k < i + 1 && last_for_code(post, k) implies holds_source(
                    bundles@[(#[trigger] resources@[k]).0@],
                    resources@[k].1@,
                ) by {
                    if k < i {
                        assert(post[i as int] == resources@[i as int]);
                        assert(post[k] == resources@[k]);
                        assert(resources@[i as int].0@ != resources@[k].0@);
                        assert(last_for_code(pre, k)) by {
                            assert forall|j: int| k < j < pre.len() implies (#[trigger] pre[j]).0@ != pre[k].0@ by {
                                assert(pre[j] == post[j]);
                                assert(pre[k] == post[k]);
                            }
                        }
                        assert(bundles@[resources@[k].0@] == old_b[resources@[k].0@]);
                    }
                }
                assert forall|c: Seq<char>| resource_codes(post).contains(c) <==> bundles@.dom().contains(c) by {
                    if resource_codes(post).contains(c) {
                        let k = choose|k: int| 0 <= k < post.len() && (#[trigger] post[k]).0@ == c;
                        if k < i {
                            assert(pre[k] == post[k]);
                            assert(resource_codes(pre).contains(c));
                        }
                    }
                    if resource_codes(pre).contains(c) {
                        let k = choose|k: int| 0 <= k < pre.len() && (#[trigger] pre[k]).0@ == c;
                        assert(post[k] == pre[k]);
                    }
                    if c == code@ {
                        assert(post[i as int] == resources@[i as int]);
                    }
                }
                assert(bundles@.dom() =~= resource_codes(post));
            }
            i = i + 1;
        }
        assert(resources@.subrange(0, resources@.len() as int) =~= resources@);
        Ok(I18n { bundles, fallback: "en".to_owned() })
    }

    /// Whether there are translations for a language code.
    pub fn is_supported(&self, language_code: &str) -> (r: bool)
        ensures
            r == self.languages().contains(language_code@),
    {
        self.bundles.contains_key(language_code)
    }

    /// The language to answer in for a user's language tag: its primary
    /// subtag, lower-cased, when there are translations for it; otherwise the
    /// fallback (also when the user gave none).
    pub fn normalize_language(&self, language_code: Option<&str>) -> (r: String)
        ensures
            r@ == match language_code {
                None => self.fallback_code(),
                Some(c) => if self.languages().contains(ascii_lower(primary_subtag(c@))) {
                    ascii_lower(primary_subtag(c@))
                } else {
                    self.fallback_code()
                },
            },
    {
        match language_code {
            None => self.fallback.clone(),
            Some(c) => {
                let v = chars_of(c);
                let mut head: Vec<char> = Vec::new();
                let mut i: usize = 0;
                assert(v@.subrange(0, v@.len() as int) =~= v@);
                assert(head@ + primary_subtag(v@) =~= primary_subtag(v@));
                while i < v.len() && v[i] != '-' && v[i] != '_'
                    invariant
                        i <= v@.len(),
                        primary_subtag(v@) == head@ + primary_subtag(v@.subrange(i as int, v@.len() as int)),
                    decreases v@.len() - i,
                {
                    let ghost rest = v@.subrange(i as int, v@.len() as int);
                    assert(rest.drop_first() =~= v@.subrange(i + 1, v@.len() as int));
                    head.push(v[i]);
                    assert(head@ + primary_subtag(v@.subrange(i + 1, v@.len() as int)) =~= head@.drop_last() + (seq![rest[0]] + primary_subtag(rest.drop_first())));
                    i = i + 1;
                }
                proof {
                    assert(v@.subrange(0, v@.len() as int) =~= v@);
                    assert(primary_subtag(v@.subrange(i as int, v@.len() as int)) =~= Seq::<char>::empty());
                    assert(head@ + Seq::<char>::empty() =~= head@);
                }
                let lowered = lower_chars(head.as_slice());
                let primary = string_of(lowered.as_slice());
                if self.bundles.contains_key(primary.as_str()) {
                    primary
                } else {
                    self.fallback.clone()
                }
            },
        }
    }

    /// The name of a language, English for an unknown code.
    pub fn language_name(&self, language_code: &str) -> (r: &'static str)
        ensures
            r@ == language_name_spec(language_code@),
    {
        if str_eq(language_code, "tr") {
            "Turkce"
        } else if str_eq(language_code, "en") {
            "English"
        } else if str_eq(language_code, "es") {
            "Espanol"
        } else if str_eq(language_code, "it") {
            "Italiano"
        } else if str_eq(language_code, "ru") {
            "Русский"
        } else if str_eq(language_code, "fr") {
            "Francais"
        } else if str_eq(language_code, "de") {
            "Deutsch"
        } else if str_eq(language_code, "mi") {
            "Te Reo Maori"
        } else {
            "English"
        }
    }

    /// The name to confirm a chosen language with: none when there are no
    /// translations for it, and the choice is then ignored.
    pub fn chosen_language_name(&self, language_code: &str) -> (r: Option<&'static str>)
        ensures
            match r {
                Some(n) => self.languages().contains(language_code@) && n@ == language_name_spec(language_code@),
                None => !self.languages().contains(language_code@),
            },
    {
        if self.is_supported(language_code) {
            Some(self.language_name(language_code))
        } else {
            None
        }
    }

    /// The language of a user: the one they saved, if it is still supported;
    /// otherwise the one their client reports, normalised; the fallback when
    /// the update has no user.
    pub fn resolve_language(&self, has_user: bool, saved: Option<String>, user_language: Option<&str>) -> (r: String)
        ensures
            !has_user ==> r@ == self.fallback_code(),
            has_user ==> match saved {
                Some(s) if self.languages().contains(s@) => r@ == s@,
                _ => r@ == match user_language {
                    None => self.fallback_code(),
                    Some(c) => if self.languages().contains(ascii_lower(primary_subtag(c@))) {
                        ascii_lower(primary_subtag(c@))
                    } else {
                        self.fallback_code()
                    },
                },
            },
    {
        if !has_user {
            return self.normalize_language(None);
        }
        match saved {
            Some(s) => {
                if self.is_supported(s.as_str()) {
                    return s;
                }
                self.normalize_language(user_language)
            },
            None => self.normalize_language(user_language),
        }
    }

    fn format(&self, language_code: &str, key: &str, args: &[(String, String)]) -> (r: Option<String>)
        ensures
            r.deep_view() == self.text(language_code@, key@, args_view(args@)),
    {
        match self.bundles.get(language_code) {
            Some(bundle) => {
                if args.len() == 0 {
                    format_message(bundle, key, None)
                } else {
                    format_message(bundle, key, Some(args))
                }
            },
            None => None,
        }
    }

    /// The text of message `key` in a language, formatted with `args`: from the
    /// user's language if supported, else from the fallback; then from the
    /// fallback when that language lacks the message; the key itself when
    /// neither has it.
    pub fn t(&self, language_code: &str, key: &str, args: &[(String, String)]) -> (r: String)
        ensures
            r@ == match self.text(self.chosen_language(language_code@), key@, args_view(args@)) {
                Some(p) => p,
                None => match self.text(self.fallback_code(), key@, args_view(args@)) {
                    Some(f) => f,
                    None => key@,
                },
            },
    {
        let code: &str = if self.bundles.contains_key(language_code) {
            language_code
        } else {
            self.fallback.as_str()
        };
        let primary = self.format(code, key, args);
        let fallback = match primary {
            Some(_) => None,
            None => self.format(self.fallback.as_str(), key, args),
        };
        pick_text(primary, fallback, key)
    }
}

/// The text shown for a message: the translation in the chosen language, else
/// the fallback translation, else the key.
pub fn pick_text(primary: Option<String>, fallback: Option<String>, key: &str) -> (r: String)
    ensures
        r@ == match primary {
            Some(p) => p@,
            None => match fallback {
                Some(f) => f@,
                None => key@,
            },
        },
{
    match primary {
        Some(p) => p,
        None => match fallback {
            Some(f) => f,
            None => key.to_owned(),
        },
    }
}

/// The keyboard of language buttons, two to a row.
pub fn language_keyboard() -> (rows: Vec<Vec<Button>>)
    ensures
        laid_out(keyboard_view(rows@), language_buttons(), 2),
{
    let langs = supported_languages();
    let ghost items = language_buttons();
    let mut rows: Vec<Vec<Button>> = Vec::new();
    let mut cur: Vec<Button> = Vec::new();
    let mut i: usize = 0;
    while i < langs.len()
        invariant
            langs@.len() == 8,
            forall|k: int| 0 <= k < 8 ==> (#[trigger] langs@[k]).code@ == language_codes()[k] && langs@[k].name@
                == language_names()[k],
            i <= 8,
            items == language_buttons(),
            keyboard_view(rows@).flatten() + cur@.map_values(|b: Button| b@) == items.subrange(0, i as int),
            forall|r: int| 0 <= r < rows@.len() ==> (#[trigger] keyboard_view(rows@)[r]).len() == 2,
            cur@.len() < 2,
        decreases 8 - i,
    {
        let l = langs[i];
        let mut data = "lang:".to_owned();
        data.append(l.code);
        let b = Button { text: l.name.to_owned(), data };
        assert(b@ == items[i as int]);
        let ghost before_rows = keyboard_view(rows@);
        let ghost before_cur = cur@.map_values(|b: Button| b@);
        cur.push(b);
        assert(cur@.map_values(|b: Button| b@) =~= before_cur.push(items[i as int]));
        assert(items.subrange(0, i + 1) =~= items.subrange(0, i as int).push(items[i as int]));
        if cur.len() == 2 {
            let full = cur;
            cur = Vec::new();
            rows.push(full);
            proof {
                assert(keyboard_view(rows@) =~= before_rows.push(full@.map_values(|b: Button| b@)));
                before_rows.lemma_flatten_push(full@.map_values(|b: Button| b@));
                assert(cur@.map_values(|b: Button| b@) =~= Seq::<(Seq<char>, Seq<char>)>::empty());
            }
        }
        i = i + 1;
    }
    let ghost before_rows = keyboard_view(rows@);
    if cur.len() > 0 {
        let last = cur;
        rows.push(last);
        proof {
            assert(keyboard_view(rows@) =~= before_rows.push(last@.map_values(|b: Button| b@)));
            before_rows.lemma_flatten_push(last@.map_values(|b: Button| b@));
        }
    } else {
        assert(before_rows.flatten() + Seq::<(Seq<char>, Seq<char>)>::empty() =~= before_rows.flatten());
    }
    assert(items.subrange(0, 8) =~= items);
    rows
}

/// Each offered language is offered under its own name: for every language of
/// the menu, the name on its button is the name of the code the button sends,
/// and no two languages share a code or a name.
pub proof fn lemma_language_buttons_named_by_code()
    ensures
        language_codes().len() == 8 && language_names().len() == 8,
        forall|i: int| 0 <= i < 8 ==> language_names()[i] == language_name_spec(#[trigger] language_codes()[i]),
        forall|i: int|
            0 <= i < 8 ==> #[trigger] language_buttons()[i] == (
                language_name_spec(language_codes()[i]),
                language_button_data(language_codes()[i]),
            ),
        forall|i: int, j: int|
            0 <= i < j < 8 ==> #[trigger] language_codes()[i] != #[trigger] language_codes()[j]
                && language_names()[i] != language_names()[j],
{
    reveal_strlit("tr");
    reveal_strlit("en");
    reveal_strlit("es");
    reveal_strlit("it");
    reveal_strlit("ru");
    reveal_strlit("fr");
    reveal_strlit("de");
    reveal_strlit("mi");
    reveal_strlit("Turkce");
    reveal_strlit("English");
    reveal_strlit("Espanol");
    reveal_strlit("Italiano");
    reveal_strlit("Русский");
    reveal_strlit("Francais");
    reveal_strlit("Deutsch");
    reveal_strlit("Te Reo Maori");
    let c = language_codes();
    let n = language_names();
    assert(c[0][0] == 't' && c[1][0] == 'e' && c[2][0] == 'e' && c[3][0] == 'i');
    assert(c[4][0] == 'r' && c[5][0] == 'f' && c[6][0] == 'd' && c[7][0] == 'm');
    assert(c[1][1] == 'n' && c[2][1] == 's');
    assert(n[0][0] == 'T' && n[1][0] == 'E' && n[2][0] == 'E' && n[3][0] == 'I');
    assert(n[4][0] == 'Р' && n[5][0] == 'F' && n[6][0] == 'D' && n[7][0] == 'T');
    assert(n[1][1] == 'n' && n[2][1] == 's' && n[0][1] == 'u' && n[7][1] == 'e');
    assert forall|i: int| 0 <= i < 8 implies n[i] == language_name_spec(#[trigger] c[i]) by {
        assert(c[i].len() == 2);
    }
    assert forall|i: int, j: int| 0 <= i < j < 8 implies #[trigger] c[i] != #[trigger] c[j] && n[i] != n[j] by {
        if c[i] == c[j] {
            assert(c[i][0] == c[j][0]);
            assert(c[i][1] == c[j][1]);
        }
        if n[i] == n[j] {
            assert(n[i][0] == n[j][0]);
            assert(n[i][1] == n[j][1]);
        }
    }
}

} // verus!
