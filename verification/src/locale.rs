//! Locales, regions and languages, and which of them the player uses.

use crate::strings::str_eq;
use vstd::prelude::*;

verus! {

/// Number of locales.
pub const LOCALE_COUNT: usize = 14;

/// Number of regions.
pub const REGION_COUNT: usize = 5;

/// Number of languages that files can be kept apart for.
pub const LANGUAGE_COUNT: usize = 10;

/// A language as it is spoken in one region.
#[derive(Copy, Clone, Debug, PartialEq, Eq, Structural)]
pub enum Locale {
    Japanese,
    UsEnglish,
    UsFrench,
    UsSpanish,
    EuEnglish,
    EuFrench,
    EuSpanish,
    German,
    Dutch,
    Italian,
    Russian,
    Korean,
    Chinese,
    Taiwanese,
}

impl Locale {
    /// The code that folders and file names use.
    pub open spec fn code(self) -> Seq<char> {
        match self {
            Locale::Japanese => "ja_jp"@,
            Locale::UsEnglish => "us_en"@,
            Locale::UsFrench => "us_fr"@,
            Locale::UsSpanish => "us_es"@,
            Locale::EuEnglish => "eu_en"@,
            Locale::EuFrench => "eu_fr"@,
            Locale::EuSpanish => "eu_es"@,
            Locale::German => "eu_de"@,
            Locale::Dutch => "eu_nl"@,
            Locale::Italian => "eu_it"@,
            Locale::Russian => "eu_ru"@,
            Locale::Korean => "kr_ko"@,
            Locale::Chinese => "zh_cn"@,
            Locale::Taiwanese => "zh_tw"@,
        }
    }

    /// Position among the locales of a localized file.
    pub open spec fn number(self) -> int {
        match self {
            Locale::Japanese => 0,
            Locale::UsEnglish => 1,
            Locale::UsFrench => 2,
            Locale::UsSpanish => 3,
            Locale::EuEnglish => 4,
            Locale::EuFrench => 5,
            Locale::EuSpanish => 6,
            Locale::German => 7,
            Locale::Dutch => 8,
            Locale::Italian => 9,
            Locale::Russian => 10,
            Locale::Korean => 11,
            Locale::Chinese => 12,
            Locale::Taiwanese => 13,
        }
    }

    /// The value with this code, if there is one.
    pub fn from_str(value: &str) -> (r: Option<Locale>)
        ensures
            match r {
                Some(x) => x.code() == value@,
                None => forall|x: Locale| x.code() != value@,
            },
    {
        if str_eq(value, "ja_jp") {
            Some(Locale::Japanese)
        } else if str_eq(value, "us_en") {
            Some(Locale::UsEnglish)
        } else if str_eq(value, "us_fr") {
            Some(Locale::UsFrench)
        } else if str_eq(value, "us_es") {
            Some(Locale::UsSpanish)
        } else if str_eq(value, "eu_en") {
            Some(Locale::EuEnglish)
        } else if str_eq(value, "eu_fr") {
            Some(Locale::EuFrench)
        } else if str_eq(value, "eu_es") {
            Some(Locale::EuSpanish)
        } else if str_eq(value, "eu_de") {
            Some(Locale::German)
        } else if str_eq(value, "eu_nl") {
            Some(Locale::Dutch)
        } else if str_eq(value, "eu_it") {
            Some(Locale::Italian)
        } else if str_eq(value, "eu_ru") {
            Some(Locale::Russian)
        } else if str_eq(value, "kr_ko") {
            Some(Locale::Korean)
        } else if str_eq(value, "zh_cn") {
            Some(Locale::Chinese)
        } else if str_eq(value, "zh_tw") {
            Some(Locale::Taiwanese)
        } else {
            None
        }
    }

    pub fn as_str(&self) -> (r: &'static str)
        ensures
            r@ == self.code(),
    {
        match self {
            Locale::Japanese => "ja_jp",
            Locale::UsEnglish => "us_en",
            Locale::UsFrench => "us_fr",
            Locale::UsSpanish => "us_es",
            Locale::EuEnglish => "eu_en",
            Locale::EuFrench => "eu_fr",
            Locale::EuSpanish => "eu_es",
            Locale::German => "eu_de",
            Locale::Dutch => "eu_nl",
            Locale::Italian => "eu_it",
            Locale::Russian => "eu_ru",
            Locale::Korean => "kr_ko",
            Locale::Chinese => "zh_cn",
            Locale::Taiwanese => "zh_tw",
        }
    }

    pub fn index(&self) -> (r: u32)
        ensures
            r == self.number(),
    {
        match self {
            Locale::Japanese => 0,
            Locale::UsEnglish => 1,
            Locale::UsFrench => 2,
            Locale::UsSpanish => 3,
            Locale::EuEnglish => 4,
            Locale::EuFrench => 5,
            Locale::EuSpanish => 6,
            Locale::German => 7,
            Locale::Dutch => 8,
            Locale::Italian => 9,
            Locale::Russian => 10,
            Locale::Korean => 11,
            Locale::Chinese => 12,
            Locale::Taiwanese => 13,
        }
    }
}

/// No two values share a code, so a code read back is the value it was written for.
pub proof fn law_locale_code(a: Locale, b: Locale)
    requires
        a.code() == b.code(),
    ensures
        a == b,
{
    reveal_strlit("ja_jp");
    assert("ja_jp"@ =~= seq!['j', 'a', '_', 'j', 'p']);
    reveal_strlit("us_en");
    assert("us_en"@ =~= seq!['u', 's', '_', 'e', 'n']);
    reveal_strlit("us_fr");
    assert("us_fr"@ =~= seq!['u', 's', '_', 'f', 'r']);
    reveal_strlit("us_es");
    assert("us_es"@ =~= seq!['u', 's', '_', 'e', 's']);
    reveal_strlit("eu_en");
    assert("eu_en"@ =~= seq!['e', 'u', '_', 'e', 'n']);
    reveal_strlit("eu_fr");
    assert("eu_fr"@ =~= seq!['e', 'u', '_', 'f', 'r']);
    reveal_strlit("eu_es");
    assert("eu_es"@ =~= seq!['e', 'u', '_', 'e', 's']);
    reveal_strlit("eu_de");
    assert("eu_de"@ =~= seq!['e', 'u', '_', 'd', 'e']);
    reveal_strlit("eu_nl");
    assert("eu_nl"@ =~= seq!['e', 'u', '_', 'n', 'l']);
    reveal_strlit("eu_it");
    assert("eu_it"@ =~= seq!['e', 'u', '_', 'i', 't']);
    reveal_strlit("eu_ru");
    assert("eu_ru"@ =~= seq!['e', 'u', '_', 'r', 'u']);
    reveal_strlit("kr_ko");
    assert("kr_ko"@ =~= seq!['k', 'r', '_', 'k', 'o']);
    reveal_strlit("zh_cn");
    assert("zh_cn"@ =~= seq!['z', 'h', '_', 'c', 'n']);
    reveal_strlit("zh_tw");
    assert("zh_tw"@ =~= seq!['z', 'h', '_', 't', 'w']);
    assert(a.code()[0] == b.code()[0]);
    assert(a.code()[1] == b.code()[1]);
    assert(a.code()[3] == b.code()[3]);
    assert(a.code()[4] == b.code()[4]);
}

/// A region that the game is sold in.
#[derive(Copy, Clone, Debug, PartialEq, Eq, Structural)]
pub enum Region {
    Japan,
    NorthAmerica,
    Europe,
    Korea,
    China,
}

impl Region {
    /// The code that folders and file names use.
    pub open spec fn code(self) -> Seq<char> {
        match self {
            Region::Japan => "ja"@,
            Region::NorthAmerica => "us"@,
            Region::Europe => "eu"@,
            Region::Korea => "kr"@,
            Region::China => "zh"@,
        }
    }

    /// Position among the regions of a regional file.
    pub open spec fn number(self) -> int {
        match self {
            Region::Japan => 0,
            Region::NorthAmerica => 1,
            Region::Europe => 2,
            Region::Korea => 3,
            Region::China => 4,
        }
    }

    /// The value with this code, if there is one.
    pub fn from_str(value: &str) -> (r: Option<Region>)
        ensures
            match r {
                Some(x) => x.code() == value@,
                None => forall|x: Region| x.code() != value@,
            },
    {
        if str_eq(value, "ja") {
            Some(Region::Japan)
        } else if str_eq(value, "us") {
            Some(Region::NorthAmerica)
        } else if str_eq(value, "eu") {
            Some(Region::Europe)
        } else if str_eq(value, "kr") {
            Some(Region::Korea)
        } else if str_eq(value, "zh") {
            Some(Region::China)
        } else {
            None
        }
    }

    pub fn as_str(&self) -> (r: &'static str)
        ensures
            r@ == self.code(),
    {
        match self {
            Region::Japan => "ja",
            Region::NorthAmerica => "us",
            Region::Europe => "eu",
            Region::Korea => "kr",
            Region::China => "zh",
        }
    }

    pub fn index(&self) -> (r: u32)
        ensures
            r == self.number(),
    {
        match self {
            Region::Japan => 0,
            Region::NorthAmerica => 1,
            Region::Europe => 2,
            Region::Korea => 3,
            Region::China => 4,
        }
    }
}

/// No two values share a code, so a code read back is the value it was written for.
pub proof fn law_region_code(a: Region, b: Region)
    requires
        a.code() == b.code(),
    ensures
        a == b,
{
    reveal_strlit("ja");
    assert("ja"@ =~= seq!['j', 'a']);
    reveal_strlit("us");
    assert("us"@ =~= seq!['u', 's']);
    reveal_strlit("eu");
    assert("eu"@ =~= seq!['e', 'u']);
    reveal_strlit("kr");
    assert("kr"@ =~= seq!['k', 'r']);
    reveal_strlit("zh");
    assert("zh"@ =~= seq!['z', 'h']);
    assert(a.code()[0] == b.code()[0]);
    assert(a.code()[1] == b.code()[1]);
}

/// A language that the game can be set to.
#[derive(Copy, Clone, Debug, PartialEq, Eq, Structural)]
pub enum Language {
    Japanese,
    English,
    French,
    Spanish,
    German,
    Italian,
    Dutch,
    Russian,
    Chinese,
    Taiwanese,
    Korean,
}

impl Language {
    /// The code that folders and file names use.
    pub open spec fn code(self) -> Seq<char> {
        match self {
            Language::Japanese => "jp"@,
            Language::English => "en"@,
            Language::French => "fr"@,
            Language::Spanish => "es"@,
            Language::German => "de"@,
            Language::Italian => "it"@,
            Language::Dutch => "nl"@,
            Language::Russian => "ru"@,
            Language::Chinese => "cn"@,
            Language::Taiwanese => "tw"@,
            Language::Korean => "ko"@,
        }
    }

    /// Number that the save data keeps for the language.
    pub open spec fn number(self) -> int {
        match self {
            Language::Japanese => 0,
            Language::English => 1,
            Language::French => 2,
            Language::Spanish => 3,
            Language::German => 4,
            Language::Italian => 5,
            Language::Dutch => 6,
            Language::Russian => 7,
            Language::Chinese => 8,
            Language::Taiwanese => 9,
            Language::Korean => 10,
        }
    }

    /// The value with this code, if there is one.
    pub fn from_str(value: &str) -> (r: Option<Language>)
        ensures
            match r {
                Some(x) => x.code() == value@,
                None => forall|x: Language| x.code() != value@,
            },
    {
        if str_eq(value, "jp") {
            Some(Language::Japanese)
        } else if str_eq(value, "en") {
            Some(Language::English)
        } else if str_eq(value, "fr") {
            Some(Language::French)
        } else if str_eq(value, "es") {
            Some(Language::Spanish)
        } else if str_eq(value, "de") {
            Some(Language::German)
        } else if str_eq(value, "it") {
            Some(Language::Italian)
        } else if str_eq(value, "nl") {
            Some(Language::Dutch)
        } else if str_eq(value, "ru") {
            Some(Language::Russian)
        } else if str_eq(value, "cn") {
            Some(Language::Chinese)
        } else if str_eq(value, "tw") {
            Some(Language::Taiwanese)
        } else if str_eq(value, "ko") {
            Some(Language::Korean)
        } else {
            None
        }
    }

    pub fn as_str(&self) -> (r: &'static str)
        ensures
            r@ == self.code(),
    {
        match self {
            Language::Japanese => "jp",
            Language::English => "en",
            Language::French => "fr",
            Language::Spanish => "es",
            Language::German => "de",
            Language::Italian => "it",
            Language::Dutch => "nl",
            Language::Russian => "ru",
            Language::Chinese => "cn",
            Language::Taiwanese => "tw",
            Language::Korean => "ko",
        }
    }

    pub fn index(&self) -> (r: u32)
        ensures
            r == self.number(),
    {
        match self {
            Language::Japanese => 0,
            Language::English => 1,
            Language::French => 2,
            Language::Spanish => 3,
            Language::German => 4,
            Language::Italian => 5,
            Language::Dutch => 6,
            Language::Russian => 7,
            Language::Chinese => 8,
            Language::Taiwanese => 9,
            Language::Korean => 10,
        }
    }
}

/// No two values share a code, so a code read back is the value it was written for.
pub proof fn law_language_code(a: Language, b: Language)
    requires
        a.code() == b.code(),
    ensures
        a == b,
{
    reveal_strlit("jp");
    assert("jp"@ =~= seq!['j', 'p']);
    reveal_strlit("en");
    assert("en"@ =~= seq!['e', 'n']);
    reveal_strlit("fr");
    assert("fr"@ =~= seq!['f', 'r']);
    reveal_strlit("es");
    assert("es"@ =~= seq!['e', 's']);
    reveal_strlit("de");
    assert("de"@ =~= seq!['d', 'e']);
    reveal_strlit("it");
    assert("it"@ =~= seq!['i', 't']);
    reveal_strlit("nl");
    assert("nl"@ =~= seq!['n', 'l']);
    reveal_strlit("ru");
    assert("ru"@ =~= seq!['r', 'u']);
    reveal_strlit("cn");
    assert("cn"@ =~= seq!['c', 'n']);
    reveal_strlit("tw");
    assert("tw"@ =~= seq!['t', 'w']);
    reveal_strlit("ko");
    assert("ko"@ =~= seq!['k', 'o']);
    assert(a.code()[0] == b.code()[0]);
    assert(a.code()[1] == b.code()[1]);
}

/// What the player has the game set to.
#[derive(Copy, Clone, Debug, PartialEq, Eq, Structural)]
pub struct LocalePreferences {
    pub region: Region,
    pub language: Language,
    pub locale: Locale,
}

impl Language {
    /// The language that the save data means by `value`. The number of Japanese is not taken.
    pub fn from_u8(value: u8) -> (r: Option<Language>)
        ensures
            match r {
                Some(x) => x.number() == value && x != Language::Japanese,
                None => value == 0 || value > 10,
            },
    {
        match value {
            1 => Some(Language::English),
            2 => Some(Language::French),
            3 => Some(Language::Spanish),
            4 => Some(Language::German),
            5 => Some(Language::Italian),
            6 => Some(Language::Dutch),
            7 => Some(Language::Russian),
            8 => Some(Language::Chinese),
            9 => Some(Language::Taiwanese),
            10 => Some(Language::Korean),
            _ => None,
        }
    }
}

/// The region class of the system's desired language. It tells the American variants of a
/// language from the European ones.
pub open spec fn is_american(desired: u32) -> bool {
    1 <= desired < 4 || desired > 14
}

/// The language that the language byte of the save data selects. English is the fallback.
pub open spec fn saved_language(code: Option<u8>) -> Language {
    match code {
        Some(1) => Language::English,
        Some(2) => Language::French,
        Some(3) => Language::Spanish,
        Some(4) => Language::German,
        Some(5) => Language::Italian,
        Some(6) => Language::Dutch,
        Some(7) => Language::Russian,
        Some(8) => Language::Chinese,
        Some(9) => Language::Taiwanese,
        Some(10) => Language::Korean,
        _ => Language::English,
    }
}

/// The locale and the region of a language.
pub open spec fn locale_of(language: Language, american: bool) -> (Locale, Region) {
    match language {
        Language::Japanese => (Locale::Japanese, Region::Japan),
        Language::English => if american {
            (Locale::UsEnglish, Region::NorthAmerica)
        } else {
            (Locale::EuEnglish, Region::Europe)
        },
        Language::French => if american {
            (Locale::UsFrench, Region::NorthAmerica)
        } else {
            (Locale::EuFrench, Region::Europe)
        },
        Language::Spanish => if american {
            (Locale::UsSpanish, Region::NorthAmerica)
        } else {
            (Locale::EuSpanish, Region::Europe)
        },
        Language::German => (Locale::German, Region::Europe),
        Language::Dutch => (Locale::Dutch, Region::Europe),
        Language::Italian => (Locale::Italian, Region::Europe),
        Language::Russian => (Locale::Russian, Region::Europe),
        Language::Chinese => (Locale::Chinese, Region::China),
        Language::Taiwanese => (Locale::Taiwanese, Region::China),
        Language::Korean => (Locale::Korean, Region::China),
    }
}

/// The preferences that the language byte of the save data and the system's desired language
/// amount to. `language_code` is `None` where the save data could not be opened.
pub fn preferences_from_save(language_code: Option<u8>, desired: u32) -> (r: LocalePreferences)
    ensures
        r.language == saved_language(language_code),
        (r.locale, r.region) == locale_of(r.language, is_american(desired)),
{
    let language = match language_code {
        Some(code) => match Language::from_u8(code) {
            Some(language) => language,
            None => Language::English,
        },
        None => Language::English,
    };
    let american: bool = match desired {
        0 => false,
        1 | 2 | 3 => true,
        4..=14 => false,
        _ => true,
    };
    let (locale, region) = match language {
        Language::Japanese => (Locale::Japanese, Region::Japan),
        Language::English => if american {
            (Locale::UsEnglish, Region::NorthAmerica)
        } else {
            (Locale::EuEnglish, Region::Europe)
        },
        Language::French => if american {
            (Locale::UsFrench, Region::NorthAmerica)
        } else {
            (Locale::EuFrench, Region::Europe)
        },
        Language::Spanish => if american {
            (Locale::UsSpanish, Region::NorthAmerica)
        } else {
            (Locale::EuSpanish, Region::Europe)
        },
        Language::German => (Locale::German, Region::Europe),
        Language::Dutch => (Locale::Dutch, Region::Europe),
        Language::Italian => (Locale::Italian, Region::Europe),
        Language::Russian => (Locale::Russian, Region::Europe),
        Language::Chinese => (Locale::Chinese, Region::China),
        Language::Taiwanese => (Locale::Taiwanese, Region::China),
        Language::Korean => (Locale::Korean, Region::China),
    };
    LocalePreferences { region, language, locale }
}

/// The locale with a number.
pub open spec fn locale_at(i: int) -> Locale {
    if i == 0 {
        Locale::Japanese
    } else if i == 1 {
        Locale::UsEnglish
    } else if i == 2 {
        Locale::UsFrench
    } else if i == 3 {
        Locale::UsSpanish
    } else if i == 4 {
        Locale::EuEnglish
    } else if i == 5 {
        Locale::EuFrench
    } else if i == 6 {
        Locale::EuSpanish
    } else if i == 7 {
        Locale::German
    } else if i == 8 {
        Locale::Dutch
    } else if i == 9 {
        Locale::Italian
    } else if i == 10 {
        Locale::Russian
    } else if i == 11 {
        Locale::Korean
    } else if i == 12 {
        Locale::Chinese
    } else {
        Locale::Taiwanese
    }
}

/// The region with a number.
pub open spec fn region_at(i: int) -> Region {
    if i == 0 {
        Region::Japan
    } else if i == 1 {
        Region::NorthAmerica
    } else if i == 2 {
        Region::Europe
    } else if i == 3 {
        Region::Korea
    } else {
        Region::China
    }
}

/// The language with a number.
pub open spec fn language_at(i: int) -> Language {
    if i == 0 {
        Language::Japanese
    } else if i == 1 {
        Language::English
    } else if i == 2 {
        Language::French
    } else if i == 3 {
        Language::Spanish
    } else if i == 4 {
        Language::German
    } else if i == 5 {
        Language::Italian
    } else if i == 6 {
        Language::Dutch
    } else if i == 7 {
        Language::Russian
    } else if i == 8 {
        Language::Chinese
    } else if i == 9 {
        Language::Taiwanese
    } else {
        Language::Korean
    }
}

/// Every number belongs to one value.
pub proof fn law_numbers(i: int, l: Locale, r: Region, g: Language)
    ensures
        0 <= i < 14 ==> locale_at(i).number() == i,
        0 <= i < 5 ==> region_at(i).number() == i,
        0 <= i < 11 ==> language_at(i).number() == i,
        locale_at(l.number()) == l,
        region_at(r.number()) == r,
        language_at(g.number()) == g,
        0 <= l.number() < 14,
        0 <= r.number() < 5,
        0 <= g.number() < 11,
{
}

/// The number of each locale, region and language goes with its code.
pub proof fn law_codes(i: int)
    ensures
        0 <= i < 14 ==> locale_at(i).code() == seq![
            "ja_jp"@,
            "us_en"@,
            "us_fr"@,
            "us_es"@,
            "eu_en"@,
            "eu_fr"@,
            "eu_es"@,
            "eu_de"@,
            "eu_nl"@,
            "eu_it"@,
            "eu_ru"@,
            "kr_ko"@,
            "zh_cn"@,
            "zh_tw"@,
        ][i],
        0 <= i < 14 ==> locale_at(i).number() == i,
        0 <= i < 5 ==> region_at(i).code() == seq!["ja"@, "us"@, "eu"@, "kr"@, "zh"@][i],
        0 <= i < 5 ==> region_at(i).number() == i,
        0 <= i < 11 ==> language_at(i).code() == seq![
            "jp"@,
            "en"@,
            "fr"@,
            "es"@,
            "de"@,
            "it"@,
            "nl"@,
            "ru"@,
            "cn"@,
            "tw"@,
            "ko"@,
        ][i],
        0 <= i < 11 ==> language_at(i).number() == i,
{
}

/// The save data numbers languages as they are numbered here. A number that means nothing, that of Japanese
/// and a missing one stand for English.
pub proof fn law_saved_language(code: Option<u8>)
    ensures
        code matches Some(c) ==> 1 <= c <= 10 ==> saved_language(code).number() == c,
        code is None ==> saved_language(code) == Language::English,
        code matches Some(c) ==> c == 0 || c > 10 ==> saved_language(code) == Language::English,
{
}

/// English, French and Spanish are those of America or of Europe, as the system says. Other European
/// languages are those of Europe in any case. The code of a European or American locale is that of its region
/// and that of its language.
pub proof fn law_locale_of(language: Language, american: bool)
    ensures
        ({
            let (locale, region) = locale_of(language, american);
            let both = language == Language::English || language == Language::French || language
                == Language::Spanish;
            let european = language == Language::German || language == Language::Dutch || language
                == Language::Italian || language == Language::Russian;
            &&& both && american ==> region == Region::NorthAmerica
            &&& both && !american ==> region == Region::Europe
            &&& european ==> region == Region::Europe
            &&& both || european ==> locale.code() == region.code() + "_"@ + language.code()
            &&& language == Language::Japanese ==> locale == Locale::Japanese && region == Region::Japan
            &&& language == Language::Chinese ==> locale == Locale::Chinese && region == Region::China
            &&& language == Language::Taiwanese ==> locale == Locale::Taiwanese && region == Region::China
            &&& language == Language::Korean ==> locale == Locale::Korean && region == Region::China
        }),
        forall|desired: u32| #[trigger] is_american(desired) <==> desired == 1 || desired == 2 || desired == 3
            || desired >= 15,
{
    reveal_strlit("us_en");
    reveal_strlit("us_fr");
    reveal_strlit("us_es");
    reveal_strlit("eu_en");
    reveal_strlit("eu_fr");
    reveal_strlit("eu_es");
    reveal_strlit("eu_de");
    reveal_strlit("eu_nl");
    reveal_strlit("eu_it");
    reveal_strlit("eu_ru");
    reveal_strlit("us");
    reveal_strlit("eu");
    reveal_strlit("_");
    reveal_strlit("en");
    reveal_strlit("fr");
    reveal_strlit("es");
    reveal_strlit("de");
    reveal_strlit("nl");
    reveal_strlit("it");
    reveal_strlit("ru");
    let (locale, region) = locale_of(language, american);
    if region == Region::NorthAmerica || region == Region::Europe {
        assert(locale.code() =~= region.code() + "_"@ + language.code());
    }
}

} // verus!
