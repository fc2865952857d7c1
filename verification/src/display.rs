//! Small texts of the user interface: the user ids of the login form, the node summary
//! (swap, CPU model, kernel build date, boot mode), and the languages Proxmox products offer.
use vstd::prelude::*;
use crate::json::{get_member, jview, member, Json, JsonValue};
use crate::text::{
    chars_eq, decimal_spec, parse_unsigned, parse_unsigned_spec, push_decimal, push_str, rsplit_once, rsplit_once_spec, split, split_spec, str_chars, string_from_chars,
    lemma_split_nonempty,
};

verus! {

/// Splits a user id `user@realm` at its last `@`.
pub fn split_userid(userid: &str) -> (r: Option<(String, String)>)
    ensures
        match rsplit_once_spec(userid@, '@') {
            Some((user, realm)) => r is Some && (r->0).0@ == user && (r->0).1@ == realm,
            None => r is None,
        },
{
    let c = str_chars(userid);
    match rsplit_once(c.as_slice(), '@') {
        Some((user, realm)) => Some(
            (string_from_chars(user.as_slice()), string_from_chars(realm.as_slice())),
        ),
        None => None,
    }
}

/// The user id a login submits: `user@realm`.
pub fn join_userid(user: &str, realm: &str) -> (r: String)
    ensures
        r@ == user@ + "@"@ + realm@,
{
    let mut v: Vec<char> = Vec::new();
    push_str(&mut v, user);
    push_str(&mut v, "@");
    push_str(&mut v, realm);
    string_from_chars(v.as_slice())
}

/// The user name and realm the login form starts with: `root` and the configured default
/// realm, unless the last user id is remembered (always on mobile, otherwise when the user
/// asked to save it) and splits at an `@` into a user and a realm.
pub open spec fn login_defaults_spec(
    remember: bool,
    last_userid: Seq<char>,
    default_realm: Option<Seq<char>>,
) -> (Seq<char>, Option<Seq<char>>) {
    if remember && last_userid.len() > 0 {
        match rsplit_once_spec(last_userid, '@') {
            Some((user, realm)) => (user, Some(realm)),
            None => ("root"@, default_realm),
        }
    } else {
        ("root"@, default_realm)
    }
}

/// The user name and realm the login form starts with.
pub fn login_defaults(mobile: bool, save_username: bool, last_userid: &str, default_realm: Option<&str>) -> (r: (
    String,
    Option<String>,
))
    ensures
        ({
            let (user, realm) = login_defaults_spec(
                mobile || save_username,
                last_userid@,
                match default_realm {
                    Some(d) => Some(d@),
                    None => None,
                },
            );
            &&& r.0@ == user
            &&& match r.1 {
                Some(x) => realm == Some(x@),
                None => realm is None,
            }
        }),
{
    let fallback = match default_realm {
        Some(d) => Some(d.to_string()),
        None => None,
    };
    if (mobile || save_username) && str_chars(last_userid).len() > 0 {
        match split_userid(last_userid) {
            Some((user, realm)) => return (user, Some(realm)),
            None => {},
        }
    }
    ("root".to_string(), fallback)
}

/// `c` separates the parts of a kernel version.
pub open spec fn is_paren(c: char) -> bool {
    c == '(' || c == ')'
}

/// The kernel version with both parentheses turned into `(`.
pub open spec fn parens_as_open(s: Seq<char>) -> Seq<char> {
    s.map_values(|c: char| if is_paren(c) { '(' } else { c })
}

/// The build date of a kernel version (`#1 SMP PREEMPT_DYNAMIC PMX 6.8.12-4 (2024-11-06T15:04Z)`):
/// the text between the first two parentheses, or `unknown` when there is none.
pub fn kernel_build_date(version: &str) -> (r: String)
    ensures
        ({
            let parts = split_spec(parens_as_open(version@), '(');
            r@ == if parts.len() > 1 {
                parts[1]
            } else {
                "unknown"@
            }
        }),
{
    let c = str_chars(version);
    let mut d: Vec<char> = Vec::new();
    let mut i: usize = 0;
    while i < c.len()
        invariant
            i <= c.len(),
            d@ == parens_as_open(c@.take(i as int)),
        decreases c.len() - i,
    {
        let x = c[i];
        d.push(if x == '(' || x == ')' { '(' } else { x });
        assert(c@.take(i + 1) == c@.take(i as int).push(x));
        assert(d@ =~= parens_as_open(c@.take(i + 1)));
        i = i + 1;
    }
    assert(c@.take(c.len() as int) == c@);
    let parts = split(d.as_slice(), '(');
    if parts.len() > 1 {
        string_from_chars(parts[1].as_slice())
    } else {
        "unknown".to_string()
    }
}

/// A language a Proxmox product offers.
pub struct LanguageEntry {
    /// The language code.
    pub code: String,
    /// The language's own name.
    pub native_name: String,
    /// The English name (translated for display).
    pub english_name: String,
    /// Whether the language is written right to left.
    pub rtl: bool,
}

/// The codes of the languages all Proxmox products support, in the order they are offered.
pub open spec fn language_codes() -> Seq<Seq<char>> {
    seq![
        "ar"@, "bg"@, "ca"@, "cs"@, "da"@, "de"@, "en"@, "es"@, "eu"@, "fa"@, "fr"@, "he"@,
        "hr"@, "it"@, "ja"@, "ka"@, "ko"@, "nb"@, "nl"@, "nn"@, "pl"@, "pt_BR"@, "ru"@, "sl"@,
        "sv"@, "tr"@, "ukr"@, "zh_CN"@, "zh_TW"@,
    ]
}

/// The own and the English names of the offered languages, in the order of their codes.
pub open spec fn language_names() -> Seq<(Seq<char>, Seq<char>)> {
    seq![
        ("العربية"@, "Arabic"@),
        ("Български"@, "Bulgarian"@),
        ("Català"@, "Catalan"@),
        ("Czech"@, "Czech"@),
        ("Dansk"@, "Danish"@),
        ("Deutsch"@, "German"@),
        ("English"@, "English"@),
        ("Español"@, "Spanish"@),
        ("Euskera (Basque)"@, "Euskera (Basque)"@),
        ("فارسی"@, "Persian (Farsi)"@),
        ("Français"@, "French"@),
        ("עברית"@, "Hebrew"@),
        ("Hrvatski"@, "Croatian"@),
        ("Italiano"@, "Italian"@),
        ("日本語"@, "Japanese"@),
        ("ქართული"@, "Georgian"@),
        ("한국어"@, "Korean"@),
        ("Bokmål"@, "Norwegian (Bokmal)"@),
        ("Nederlands"@, "Dutch"@),
        ("Nynorsk"@, "Norwegian (Nynorsk)"@),
        ("Polski"@, "Polish"@),
        ("Português Brasileiro"@, "Portuguese (Brazil)"@),
        ("Русский"@, "Russian"@),
        ("Slovenščina"@, "Slovenian"@),
        ("Svenska"@, "Swedish"@),
        ("Türkçe"@, "Turkish"@),
        ("Українська"@, "Ukrainian"@),
        ("中文（简体）"@, "Chinese (Simplified)"@),
        ("中文（繁體）"@, "Chinese (Traditional)"@),
    ]
}

/// The languages written right to left.
pub open spec fn is_rtl_language(code: Seq<char>) -> bool {
    code == "ar"@ || code == "fa"@ || code == "he"@
}

fn lang(list: &mut Vec<LanguageEntry>, code: &str, native_name: &str, english_name: &str)
    requires
        forall|i: int| 0 <= i < old(list)@.len() ==> (#[trigger] old(list)@[i]).rtl == is_rtl_language(
            old(list)@[i].code@,
        ),
    ensures
        final(list)@.len() == old(list)@.len() + 1,
        forall|i: int| 0 <= i < old(list)@.len() ==> final(list)@[i] == old(list)@[i],
        final(list)@.last().code@ == code@,
        final(list)@.last().native_name@ == native_name@,
        final(list)@.last().english_name@ == english_name@,
        forall|i: int| 0 <= i < final(list)@.len() ==> (#[trigger] final(list)@[i]).rtl == is_rtl_language(
            final(list)@[i].code@,
        ),
{
    let c = str_chars(code);
    let rtl = chars_eq(c.as_slice(), str_chars("ar").as_slice()) || chars_eq(
        c.as_slice(),
        str_chars("fa").as_slice(),
    ) || chars_eq(c.as_slice(), str_chars("he").as_slice());
    list.push(
        LanguageEntry {
            code: code.to_string(),
            native_name: native_name.to_string(),
            english_name: english_name.to_string(),
            rtl,
        },
    );
}

/// The languages all Proxmox products support: their codes and names in order, each written
/// right to left exactly when it is Arabic, Persian or Hebrew.
pub fn available_language_list() -> (list: Vec<LanguageEntry>)
    ensures
        list@.map_values(|e: LanguageEntry| e.code@) == language_codes(),
        list@.map_values(|e: LanguageEntry| (e.native_name@, e.english_name@)) == language_names(),
        forall|i: int| 0 <= i < list@.len() ==> (#[trigger] list@[i]).rtl == is_rtl_language(
            list@[i].code@,
        ),
{
    let mut l: Vec<LanguageEntry> = Vec::new();
    lang(&mut l, "ar", "العربية", "Arabic");
    lang(&mut l, "bg", "Български", "Bulgarian");
    lang(&mut l, "ca", "Català", "Catalan");
    lang(&mut l, "cs", "Czech", "Czech");
    lang(&mut l, "da", "Dansk", "Danish");
    lang(&mut l, "de", "Deutsch", "German");
    lang(&mut l, "en", "English", "English");
    lang(&mut l, "es", "Español", "Spanish");
    lang(&mut l, "eu", "Euskera (Basque)", "Euskera (Basque)");
    lang(&mut l, "fa", "فارسی", "Persian (Farsi)");
    lang(&mut l, "fr", "Français", "French");
    lang(&mut l, "he", "עברית", "Hebrew");
    lang(&mut l, "hr", "Hrvatski", "Croatian");
    lang(&mut l, "it", "Italiano", "Italian");
    lang(&mut l, "ja", "日本語", "Japanese");
    lang(&mut l, "ka", "ქართული", "Georgian");
    lang(&mut l, "ko", "한국어", "Korean");
    lang(&mut l, "nb", "Bokmål", "Norwegian (Bokmal)");
    lang(&mut l, "nl", "Nederlands", "Dutch");
    lang(&mut l, "nn", "Nynorsk", "Norwegian (Nynorsk)");
    lang(&mut l, "pl", "Polski", "Polish");
    lang(&mut l, "pt_BR", "Português Brasileiro", "Portuguese (Brazil)");
    lang(&mut l, "ru", "Русский", "Russian");
    lang(&mut l, "sl", "Slovenščina", "Slovenian");
    lang(&mut l, "sv", "Svenska", "Swedish");
    lang(&mut l, "tr", "Türkçe", "Turkish");
    lang(&mut l, "ukr", "Українська", "Ukrainian");
    lang(&mut l, "zh_CN", "中文（简体）", "Chinese (Simplified)");
    lang(&mut l, "zh_TW", "中文（繁體）", "Chinese (Traditional)");
    proof {
        reveal_strlit("ar");
        reveal_strlit("fa");
        reveal_strlit("he");
        reveal_strlit("bg");
        reveal_strlit("ca");
        reveal_strlit("cs");
        reveal_strlit("da");
        reveal_strlit("de");
        reveal_strlit("en");
        reveal_strlit("es");
        reveal_strlit("eu");
        reveal_strlit("fr");
        reveal_strlit("hr");
        reveal_strlit("it");
        reveal_strlit("ja");
        reveal_strlit("ka");
        reveal_strlit("ko");
        reveal_strlit("nb");
        reveal_strlit("nl");
        reveal_strlit("nn");
        reveal_strlit("pl");
        reveal_strlit("pt_BR");
        reveal_strlit("ru");
        reveal_strlit("sl");
        reveal_strlit("sv");
        reveal_strlit("tr");
        reveal_strlit("ukr");
        reveal_strlit("zh_CN");
        reveal_strlit("zh_TW");
        assert(l@.map_values(|e: LanguageEntry| e.code@) =~= language_codes());
        assert(l@.map_values(|e: LanguageEntry| (e.native_name@, e.english_name@)) =~= language_names());
    }
    l
}

/// The language codes are distinct.
pub proof fn lemma_language_codes_distinct()
    ensures
        language_codes().no_duplicates(),
{
    reveal_strlit("ar");
    reveal_strlit("fa");
    reveal_strlit("he");
    reveal_strlit("bg");
    reveal_strlit("ca");
    reveal_strlit("cs");
    reveal_strlit("da");
    reveal_strlit("de");
    reveal_strlit("en");
    reveal_strlit("es");
    reveal_strlit("eu");
    reveal_strlit("fr");
    reveal_strlit("hr");
    reveal_strlit("it");
    reveal_strlit("ja");
    reveal_strlit("ka");
    reveal_strlit("ko");
    reveal_strlit("nb");
    reveal_strlit("nl");
    reveal_strlit("nn");
    reveal_strlit("pl");
    reveal_strlit("pt_BR");
    reveal_strlit("ru");
    reveal_strlit("sl");
    reveal_strlit("sv");
    reveal_strlit("tr");
    reveal_strlit("ukr");
    reveal_strlit("zh_CN");
    reveal_strlit("zh_TW");
    let c = language_codes();
    assert forall|a: int, b: int| 0 <= a < c.len() && 0 <= b < c.len() && a != b implies c[a]
        != c[b] by {
        if c[a] == c[b] {
            assert(c[a].len() == c[b].len());
            assert(c[a][0] == c[b][0]);
            if c[a].len() > 1 {
                assert(c[a][1] == c[b][1]);
            }
            if c[a].len() > 2 {
                assert(c[a][2] == c[b][2]);
            }
            if c[a].len() > 3 {
                assert(c[a][3] == c[b][3]);
                assert(c[a][4] == c[b][4]);
            }
        }
    }
}

/// A user name and a realm without `@`, joined into a user id, split back into the same
/// user name and realm (the user name may hold `@`).
pub proof fn lemma_userid_join_split(user: Seq<char>, realm: Seq<char>)
    requires
        !realm.contains('@'),
    ensures
        rsplit_once_spec(user + "@"@ + realm, '@') == Some((user, realm)),
{
    reveal_strlit("@");
    assert("@"@ =~= seq!['@']);
    crate::text::lemma_rsplit_once_join(user, realm, '@');
}

/// A user id split at its last `@` and joined again is the same user id.
pub proof fn lemma_userid_roundtrip(userid: Seq<char>)
    ensures
        rsplit_once_spec(userid, '@') matches Some((user, realm)) ==> user + "@"@ + realm == userid,
{
    reveal_strlit("@");
    crate::text::lemma_rsplit_once_rejoin(userid, '@');
    assert("@"@ =~= seq!['@']);
}

/// How a node booted.
#[derive(Clone, Copy, PartialEq, Eq, Structural, Debug)]
pub enum BootMode {
    /// UEFI firmware.
    Efi,
    /// A legacy BIOS.
    LegacyBios,
}

/// The boot mode shown for a node: `UEFI` (noting secure boot when it is on) or `Legacy
/// BIOS`.
pub fn boot_mode_label(mode: BootMode, secureboot: bool) -> (r: &'static str)
    ensures
        r@ == match mode {
            BootMode::Efi => if secureboot {
                "UEFI (Secure Boot Enabled)"@
            } else {
                "UEFI"@
            },
            BootMode::LegacyBios => "Legacy BIOS"@,
        },
{
    match mode {
        BootMode::Efi => if secureboot {
            "UEFI (Secure Boot Enabled)"
        } else {
            "UEFI"
        },
        BootMode::LegacyBios => "Legacy BIOS",
    }
}

/// `Value::as_u64`: a JSON number written as decimal digits alone whose value fits in a
/// `u64`.
pub open spec fn json_u64(v: Json) -> Option<int> {
    match v {
        Json::Number(t) => if t.len() > 0 && t[0] != '+' {
            parse_unsigned_spec(t, u64::MAX as int)
        } else {
            None
        },
        _ => None,
    }
}

/// The number of a JSON value, when it is an unsigned integer.
pub fn json_as_u64(v: &JsonValue) -> (r: Option<u64>)
    ensures
        match r {
            Some(n) => json_u64(jview(*v)) == Some(n as int),
            None => json_u64(jview(*v)) is None,
        },
{
    match v {
        JsonValue::Number(t) => {
            let c = str_chars(t.as_str());
            if c.len() > 0 && c[0] != '+' {
                parse_unsigned(c.as_slice(), u64::MAX)
            } else {
                None
            }
        },
        _ => None,
    }
}

/// A number member of an object, `0` when it is missing or not an unsigned integer.
pub open spec fn u64_member_or_zero(v: Json, key: Seq<char>) -> int {
    match member(v, key) {
        Some(x) => match json_u64(x) {
            Some(n) => n,
            None => 0,
        },
        None => 0,
    }
}

fn u64_member(v: &JsonValue, key: &str) -> (r: u64)
    ensures
        r == u64_member_or_zero(jview(*v), key@),
{
    let k = str_chars(key);
    match get_member(v, k.as_slice()) {
        Some(i) => match v {
            JsonValue::Object(e) => match json_as_u64(&e[i].1) {
                Some(n) => n,
                None => 0,
            },
            _ => 0,
        },
        None => 0,
    }
}

/// The swap use and size of a Proxmox VE node status: the `used` and `total` numbers of its
/// `swap` object (each `0` when missing), both `0` when there is no `swap` object.
pub fn pve_swap_usage(status: &JsonValue) -> (r: (u64, u64))
    ensures
        match member(jview(*status), "swap"@) {
            Some(Json::Object(e)) => r.0 == u64_member_or_zero(Json::Object(e), "used"@) && r.1
                == u64_member_or_zero(Json::Object(e), "total"@),
            _ => r == (0u64, 0u64),
        },
{
    let k = str_chars("swap");
    match get_member(status, k.as_slice()) {
        Some(i) => match status {
            JsonValue::Object(e) => {
                let swap = &e[i].1;
                match swap {
                    JsonValue::Object(_) => (u64_member(swap, "used"), u64_member(swap, "total")),
                    _ => (0, 0),
                }
            },
            _ => (0, 0),
        },
        None => (0, 0),
    }
}

/// The CPU line of the node summary: `cpus x model (1 Socket)`, or `(n Sockets)` for any
/// other number of sockets.
pub open spec fn cpu_model_text_spec(cpus: u64, model: Seq<char>, sockets: u64) -> Seq<char> {
    let socket_text = if sockets == 1 {
        "1 Socket"@
    } else {
        decimal_spec(sockets as nat) + " Sockets"@
    };
    decimal_spec(cpus as nat) + " x "@ + model + " ("@ + socket_text + ")"@
}

/// Writes the CPU line of the node summary.
pub fn cpu_model_text(cpus: u64, model: &str, sockets: u64) -> (r: String)
    ensures
        r@ == cpu_model_text_spec(cpus, model@, sockets),
{
    let mut v: Vec<char> = Vec::new();
    push_decimal(&mut v, cpus);
    push_str(&mut v, " x ");
    push_str(&mut v, model);
    push_str(&mut v, " (");
    if sockets == 1 {
        push_str(&mut v, "1 Socket");
    } else {
        push_decimal(&mut v, sockets);
        push_str(&mut v, " Sockets");
    }
    push_str(&mut v, ")");
    string_from_chars(v.as_slice())
}

} // verus!
