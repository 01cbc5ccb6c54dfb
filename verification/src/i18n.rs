//! The language of the user interface: which of the shipped ones a setting means, and what a
//! label reads.
use crate::item::text_view;
use crate::text::{join, same_text};
use unic_langid::LanguageIdentifier;
use vstd::prelude::*;

verus! {

// ---- language tags ------------------------------------------------------

/// A language tag that has been read.
#[derive(Debug, PartialEq, Eq)]
pub struct LanguageTag {
    /// The whole tag in its canonical spelling.
    pub canonical: String,
    /// Its first part, the language alone.
    pub language: String,
}

/// The value of a [`LanguageTag`]: the canonical tag, and its language.
pub struct TagView {
    pub canonical: Seq<char>,
    pub language: Seq<char>,
}

impl View for LanguageTag {
    type V = TagView;

    open spec fn view(&self) -> TagView {
        TagView { canonical: self.canonical@, language: self.language@ }
    }
}

pub open spec fn tag_view(tag: Option<LanguageTag>) -> Option<TagView> {
    match tag {
        Some(t) => Some(t@),
        None => None,
    }
}

/// What `LanguageIdentifier::from_str` reads a text as; nothing where it refuses it.
pub uninterp spec fn language_tag_of(text: Seq<char>) -> Option<TagView>;

/// Calls `str::parse` for unic-langid's `LanguageIdentifier` and writes the result out again,
/// whole and its language alone. Claimed: what comes out depends on the text alone.
#[verifier::external_body]
fn read_language_tag(text: &str) -> (r: Option<LanguageTag>)
    ensures
        tag_view(r) == language_tag_of(text@),
{
    match text.parse::<LanguageIdentifier>() {
        Ok(id) => Some(
            LanguageTag { canonical: id.to_string(), language: id.language.to_string() },
        ),
        Err(_) => None,
    }
}

/// Did the operating system report this as its language? It is a property of the answer of
/// which nothing else is known.
pub closed spec fn told_by_the_system(os: Option<Seq<char>>) -> bool {
    arbitrary::<spec_fn(Option<Seq<char>>) -> bool>()(os)
}

/// Calls `sys_locale::get_locale`: the language tag that the operating system is set to, if it
/// is set to any. Claimed: it is what the system reported. Which language that is depends on
/// the machine and is not stated.
#[verifier::external_body]
fn system_locale() -> (r: Option<String>)
    ensures
        told_by_the_system(text_view(r)),
{
    sys_locale::get_locale()
}

// ---- shipped languages --------------------------------------------------

/// How many languages are shipped.
pub const SHIPPED_COUNT: usize = 5;

/// The tag and the language of shipped language `i`.
pub open spec fn shipped(i: int) -> Option<TagView> {
    if i == 0 {
        Some(TagView { canonical: "de"@, language: "de"@ })
    } else if i == 1 {
        Some(TagView { canonical: "en"@, language: "en"@ })
    } else if i == 2 {
        Some(TagView { canonical: "es"@, language: "es"@ })
    } else if i == 3 {
        Some(TagView { canonical: "ru"@, language: "ru"@ })
    } else if i == 4 {
        Some(TagView { canonical: "zh-CN"@, language: "zh"@ })
    } else {
        None
    }
}

/// Tag and language of shipped language `i`.
pub fn shipped_at(i: usize) -> (r: Option<(&'static str, &'static str)>)
    ensures
        match r {
            Some((tag, language)) => shipped(i as int) == Some(
                TagView { canonical: tag@, language: language@ },
            ),
            None => shipped(i as int) is None,
        },
        r is Some <==> i < SHIPPED_COUNT,
{
    if i == 0 {
        Some(("de", "de"))
    } else if i == 1 {
        Some(("en", "en"))
    } else if i == 2 {
        Some(("es", "es"))
    } else if i == 3 {
        Some(("ru", "ru"))
    } else if i == 4 {
        Some(("zh-CN", "zh"))
    } else {
        None
    }
}

/// Is this the canonical tag of a shipped language?
pub open spec fn is_shipped(canonical: Seq<char>) -> bool {
    exists|i: int| (#[trigger] shipped(i)) matches Some(s) && s.canonical == canonical
}

/// Is this the canonical tag of a shipped language?
pub fn is_embedded(canonical: &str) -> (r: bool)
    ensures
        r == is_shipped(canonical@),
{
    let mut i: usize = 0;
    while i < SHIPPED_COUNT
        invariant
            i <= SHIPPED_COUNT,
            forall|j: int|
                0 <= j < i ==> ((#[trigger] shipped(j)) matches Some(s) ==> s.canonical
                    != canonical@),
        decreases SHIPPED_COUNT - i,
    {
        if let Some((tag, _)) = shipped_at(i) {
            if same_text(tag, canonical) {
                assert(shipped(i as int) matches Some(s) && s.canonical == canonical@);
                return true;
            }
        }
        i = i + 1;
    }
    assert(!is_shipped(canonical@)) by {
        if is_shipped(canonical@) {
            let i = choose|i: int|
                (#[trigger] shipped(i)) matches Some(s) && s.canonical == canonical@;
            assert(0 <= i < SHIPPED_COUNT);
        }
    }
    false
}

/// Does a setting name a shipped language?
pub fn is_supported_tag(language: &str) -> (r: bool)
    ensures
        r == (language_tag_of(language@) matches Some(t) && is_shipped(t.canonical)),
{
    match read_language_tag(language) {
        Some(tag) => is_embedded(tag.canonical.as_str()),
        None => false,
    }
}

/// Is this the tag of the shipped language `language`?
pub open spec fn is_shipped_for(language: Seq<char>, canonical: Seq<char>) -> bool {
    exists|i: int|
        (#[trigger] shipped(i)) matches Some(s) && s.language == language && s.canonical
            == canonical
}

/// The shipped language that the operating system's language means: the one of the same
/// language, whatever the country or the script, and English if there is none.
pub open spec fn is_system_choice(os: Option<TagView>, r: Seq<char>) -> bool {
    match os {
        Some(t) => is_shipped_for(t.language, r) || (r == "en"@ && forall|c: Seq<char>|
            !#[trigger] is_shipped_for(t.language, c)),
        None => r == "en"@,
    }
}

/// The language that a setting means. `tag` is the setting read as a tag, `system` whether it
/// says to follow the system, and `os` the system's language.
pub open spec fn is_choice(
    tag: Option<TagView>,
    system: bool,
    os: Option<TagView>,
    r: Seq<char>,
) -> bool {
    if tag is Some && is_shipped(tag->0.canonical) {
        r == tag->0.canonical
    } else if !system {
        r == "en"@
    } else {
        is_system_choice(os, r)
    }
}

/// No two shipped languages are the same language, so a setting means one of them only.
pub proof fn choice_is_unique(
    tag: Option<TagView>,
    system: bool,
    os: Option<TagView>,
    a: Seq<char>,
    b: Seq<char>,
)
    requires
        is_choice(tag, system, os, a),
        is_choice(tag, system, os, b),
    ensures
        a == b,
{
    reveal_strlit("de");
    reveal_strlit("en");
    reveal_strlit("es");
    reveal_strlit("ru");
    reveal_strlit("zh");
    if a != b {
        let language = os->0.language;
        let i = choose|i: int|
            (#[trigger] shipped(i)) matches Some(s) && s.language == language && s.canonical == a;
        let j = choose|j: int|
            (#[trigger] shipped(j)) matches Some(s) && s.language == language && s.canonical == b;
        assert(shipped(i)->0.language[0] == shipped(j)->0.language[0]);
        assert(shipped(i)->0.language[1] == shipped(j)->0.language[1]);
        assert(i == j);
    }
}

/// Whatever the setting and the system say, the language is one that is shipped.
pub proof fn choice_is_shipped(
    tag: Option<TagView>,
    system: bool,
    os: Option<TagView>,
    r: Seq<char>,
)
    requires
        is_choice(tag, system, os, r),
    ensures
        is_shipped(r),
{
    assert(shipped(1) == Some(TagView { canonical: "en"@, language: "en"@ }));
    if is_system_choice(os, r) && r != "en"@ {
        let i = choose|i: int|
            (#[trigger] shipped(i)) matches Some(s) && s.language == os->0.language && s.canonical
                == r;
        assert(shipped(i)->0.canonical == r);
    }
}

/// The language that a setting means, once it and the system's language have been read.
pub fn choose_locale(tag: Option<LanguageTag>, system: bool, os: Option<LanguageTag>) -> (r: String)
    ensures
        is_choice(tag_view(tag), system, tag_view(os), r@),
        is_shipped(r@),
{
    proof {
        assert forall|r: Seq<char>|
            is_choice(tag_view(tag), system, tag_view(os), r) implies #[trigger] is_shipped(r) by {
            choice_is_shipped(tag_view(tag), system, tag_view(os), r);
        }
    }
    if let Some(t) = &tag {
        if is_embedded(t.canonical.as_str()) {
            return t.canonical.clone();
        }
    }
    if !system {
        return "en".to_owned();
    }
    let wanted = match os {
        Some(t) => t.language,
        None => {
            return "en".to_owned();
        },
    };
    let mut i: usize = 0;
    while i < SHIPPED_COUNT
        invariant
            i <= SHIPPED_COUNT,
            tag_view(os) is Some,
            tag_view(os)->0.language == wanted@,
            system,
            !(tag_view(tag) is Some && is_shipped(tag_view(tag)->0.canonical)),
            forall|r: Seq<char>|
                is_choice(tag_view(tag), system, tag_view(os), r) ==> #[trigger] is_shipped(r),
            forall|j: int|
                0 <= j < i ==> ((#[trigger] shipped(j)) matches Some(s) ==> s.language
                    != wanted@),
        decreases SHIPPED_COUNT - i,
    {
        if let Some((tag_text, language)) = shipped_at(i) {
            if same_text(language, wanted.as_str()) {
                assert(shipped(i as int) matches Some(s) && s.language == wanted@ && s.canonical
                    == tag_text@);
                assert(is_shipped_for(wanted@, tag_text@));
                assert(is_choice(tag_view(tag), system, tag_view(os), tag_text@));
                return tag_text.to_owned();
            }
        }
        i = i + 1;
    }
    proof {
        assert forall|c: Seq<char>| !#[trigger] is_shipped_for(wanted@, c) by {
            if is_shipped_for(wanted@, c) {
                let i = choose|i: int|
                    (#[trigger] shipped(i)) matches Some(s) && s.language == wanted@ && s.canonical
                        == c;
                assert(0 <= i < SHIPPED_COUNT);
            }
        }
        assert(is_choice(tag_view(tag), system, tag_view(os), "en"@));
    }
    "en".to_owned()
}

// ---- the translator -----------------------------------------------------

/// What a text from the system is read as.
pub open spec fn system_tag(os: Option<Seq<char>>) -> Option<TagView> {
    match os {
        Some(t) => language_tag_of(t),
        None => None,
    }
}

/// The language that a setting means, where the system's language is `os`.
pub open spec fn is_meant(language: Seq<char>, os: Option<Seq<char>>, r: Seq<char>) -> bool {
    is_choice(language_tag_of(language), language == "system"@, system_tag(os), r)
}

/// The language in use.
#[derive(Debug)]
pub struct I18n {
    locale: String,
}

impl I18n {
    /// The canonical tag of the language in use.
    pub closed spec fn tag(&self) -> Seq<char> {
        self.locale@
    }

    /// The language that a setting means, where the system's language is `os`. `system` follows
    /// the system; what is not shipped means English. `zh_CN` and `zh-CN` are the same tag.
    pub fn with_system(language: &str, os: Option<String>) -> (r: Self)
        ensures
            is_meant(language@, text_view(os), r.tag()),
            is_shipped(r.tag()),
    {
        let tag = read_language_tag(language);
        let os_tag = match os {
            Some(t) => read_language_tag(t.as_str()),
            None => None,
        };
        let system = same_text(language, "system");
        I18n { locale: choose_locale(tag, system, os_tag) }
    }

    /// The language that a setting means. The operating system is asked only where the setting
    /// follows it.
    pub fn new(language: &str) -> (r: Self)
        ensures
            is_shipped(r.tag()),
            exists|os: Option<Seq<char>>| #[trigger] is_meant(language@, os, r.tag()),
            language@ == "system"@ ==> exists|os: Option<Seq<char>>|
                told_by_the_system(os) && #[trigger] is_meant(language@, os, r.tag()),
            language@ != "system"@ ==> is_meant(language@, None, r.tag()),
    {
        if same_text(language, "system") {
            let os = system_locale();
            Self::with_system(language, os)
        } else {
            Self::with_system(language, None)
        }
    }

    /// The language of the whole application; English until a setting is known.
    pub fn for_setting(language: &str) -> (r: Self)
        ensures
            is_shipped(r.tag()),
            language@.len() == 0 ==> is_meant("en"@, None, r.tag()),
            language@.len() > 0 ==> exists|os: Option<Seq<char>>| #[trigger]
                is_meant(language@, os, r.tag()),
            language@ == "system"@ ==> exists|os: Option<Seq<char>>|
                told_by_the_system(os) && #[trigger] is_meant(language@, os, r.tag()),
            language@.len() > 0 && language@ != "system"@ ==> is_meant(language@, None, r.tag()),
    {
        proof {
            reveal_strlit("");
            reveal_strlit("en");
            reveal_strlit("system");
            if language@.len() == 0 {
                assert(language@ =~= ""@);
            }
        }
        if same_text(language, "") {
            let r = I18n::new("en");
            assert(language@.len() == 0);
            assert("en"@.len() != "system"@.len());
            r
        } else {
            assert(language@.len() > 0);
            I18n::new(language)
        }
    }

    /// The canonical tag of the language in use.
    pub fn locale(&self) -> (r: String)
        ensures
            r@ == self.tag(),
    {
        self.locale.clone()
    }

    /// The message for a key, where `found` is what the catalogue has for it. A key that no
    /// catalogue has stands for itself.
    pub fn msg(&self, key: &str, found: Option<String>) -> (r: String)
        ensures
            r@ == (match text_view(found) {
                Some(text) => text,
                None => key@,
            }),
    {
        match found {
            Some(text) => text,
            None => key.to_owned(),
        }
    }
}

// ---- labels -------------------------------------------------------------

/// The keys of the labels that every window carries.
pub open spec fn label_keys() -> Seq<Seq<char>> {
    seq![
        "app-title"@,
        "main-window-title"@,
        "toolbar-add-folder"@,
        "toolbar-add-snippet"@,
        "toolbar-delete"@,
        "toolbar-move-up"@,
        "toolbar-move-down"@,
        "editor-title-label"@,
        "editor-body-label"@,
        "selection-dialog-title"@,
        "tray-open-main-window"@,
        "tray-selection-dialog"@,
        "tray-options"@,
        "tray-quit"@,
        "options-title"@,
        "options-general"@,
        "options-hotkeys"@,
        "options-clipboard-history"@,
        "options-paste"@,
        "options-language-label"@,
        "options-language-hint"@,
        "options-open-dialog-label"@,
        "options-open-main-window-label"@,
        "options-hotkeys-hint"@,
        "options-capture-history"@,
        "options-max-items-label"@,
        "options-folder-position-label"@,
        "options-position-top"@,
        "options-position-bottom"@,
        "options-paste-delay-label"@,
        "options-restore-clipboard"@,
        "options-ok"@,
        "options-cancel"@,
        "options-apply"@,
        "confirm-delete-title"@,
        "confirm-yes"@,
        "confirm-no"@,
        "selection-filter-placeholder"@,
        "selection-empty"@,
        "selection-tag-history"@,
        "selection-hint"@,
        "clipboard-history-folder"@,
    ]
}

pub open spec fn key_views(keys: Seq<&'static str>) -> Seq<Seq<char>> {
    keys.map_values(|k: &'static str| k@)
}

/// The keys of the labels that every window carries. A window has its own copy of each, so a
/// change of language goes through all of them for every window.
pub fn surface_keys() -> (r: Vec<&'static str>)
    ensures
        key_views(r@) == label_keys(),
{
    let r: Vec<&'static str> = vec![
        "app-title",
        "main-window-title",
        "toolbar-add-folder",
        "toolbar-add-snippet",
        "toolbar-delete",
        "toolbar-move-up",
        "toolbar-move-down",
        "editor-title-label",
        "editor-body-label",
        "selection-dialog-title",
        "tray-open-main-window",
        "tray-selection-dialog",
        "tray-options",
        "tray-quit",
        "options-title",
        "options-general",
        "options-hotkeys",
        "options-clipboard-history",
        "options-paste",
        "options-language-label",
        "options-language-hint",
        "options-open-dialog-label",
        "options-open-main-window-label",
        "options-hotkeys-hint",
        "options-capture-history",
        "options-max-items-label",
        "options-folder-position-label",
        "options-position-top",
        "options-position-bottom",
        "options-paste-delay-label",
        "options-restore-clipboard",
        "options-ok",
        "options-cancel",
        "options-apply",
        "confirm-delete-title",
        "confirm-yes",
        "confirm-no",
        "selection-filter-placeholder",
        "selection-empty",
        "selection-tag-history",
        "selection-hint",
        "clipboard-history-folder",
    ];
    assert(key_views(r@) =~= label_keys());
    r
}

/// The picture in front of a label.
pub open spec fn label_picture(key: Seq<char>) -> Seq<char> {
    if key == "toolbar-add-folder"@ {
        "📁 "@
    } else if key == "toolbar-add-snippet"@ {
        "📄 "@
    } else if key == "toolbar-delete"@ {
        "🗑 "@
    } else {
        Seq::empty()
    }
}

/// The label for a key: the message, on some buttons behind a picture.
pub fn label_text(key: &str, message: &str) -> (r: String)
    ensures
        r@ == label_picture(key@) + message@,
{
    if same_text(key, "toolbar-add-folder") {
        join("📁 ", message)
    } else if same_text(key, "toolbar-add-snippet") {
        join("📄 ", message)
    } else if same_text(key, "toolbar-delete") {
        join("🗑 ", message)
    } else {
        assert(label_picture(key@) + message@ =~= message@);
        message.to_owned()
    }
}

} // verus!
