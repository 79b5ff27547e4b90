use crate::tag::LanguageTag;
use vstd::prelude::*;

verus! {

/// The ISO 3166-1 alpha-2 country codes that have a flag, separated by single spaces.
pub const COUNTRY_CODES: &'static str = "AD AE AF AG AI AL AM AO AQ AR AS AT AU AW AX AZ BA BB BD BE BF BG BH BI BJ BL BM BN BO BQ BR BS BT BV BW BY BZ CA CC CD CF CG CH CI CK CL CM CN CO CR CU CV CW CX CY CZ DE DJ DK DM DO DZ EC EE EG EH ER ES ET FI FJ FK FM FO FR GA GB GD GE GF GG GH GI GL GM GN GP GQ GR GS GT GU GW GY HK HM HN HR HT HU ID IE IL IM IN IO IQ IR IS IT JE JM JO JP KE KG KH KI KM KN KP KR KW KY KZ LA LB LC LI LK LR LS LT LU LV LY MA MC MD ME MF MG MH MK ML MM MN MO MP MQ MR MS MT MU MV MW MX MY MZ NA NC NE NF NG NI NL NO NP NR NU NZ OM PA PE PF PG PH PK PL PM PN PR PS PT PW PY QA RE RO RS RU RW SA SB SC SD SE SG SH SI SJ SK SL SM SN SO SR SS ST SV SX SY SZ TC TD TF TG TH TJ TK TL TM TN TO TR TT TV TW TZ UA UG UM US UY UZ VA VC VE VG VI VN VU WF WS YE YT ZA ZM ZW";

/// The flag of each country of `COUNTRY_CODES`, in the same order: two
/// regional indicator symbols each.
pub const COUNTRY_FLAGS: &'static str = "\u{1F1E6}\u{1F1E9}\u{1F1E6}\u{1F1EA}\u{1F1E6}\u{1F1EB}\u{1F1E6}\u{1F1EC}\u{1F1E6}\u{1F1EE}\u{1F1E6}\u{1F1F1}\u{1F1E6}\u{1F1F2}\u{1F1E6}\u{1F1F4}\u{1F1E6}\u{1F1F6}\u{1F1E6}\u{1F1F7}\u{1F1E6}\u{1F1F8}\u{1F1E6}\u{1F1F9}\u{1F1E6}\u{1F1FA}\u{1F1E6}\u{1F1FC}\u{1F1E6}\u{1F1FD}\u{1F1E6}\u{1F1FF}\u{1F1E7}\u{1F1E6}\u{1F1E7}\u{1F1E7}\u{1F1E7}\u{1F1E9}\u{1F1E7}\u{1F1EA}\u{1F1E7}\u{1F1EB}\u{1F1E7}\u{1F1EC}\u{1F1E7}\u{1F1ED}\u{1F1E7}\u{1F1EE}\u{1F1E7}\u{1F1EF}\u{1F1E7}\u{1F1F1}\u{1F1E7}\u{1F1F2}\u{1F1E7}\u{1F1F3}\u{1F1E7}\u{1F1F4}\u{1F1E7}\u{1F1F6}\u{1F1E7}\u{1F1F7}\u{1F1E7}\u{1F1F8}\u{1F1E7}\u{1F1F9}\u{1F1E7}\u{1F1FB}\u{1F1E7}\u{1F1FC}\u{1F1E7}\u{1F1FE}\u{1F1E7}\u{1F1FF}\u{1F1E8}\u{1F1E6}\u{1F1E8}\u{1F1E8}\u{1F1E8}\u{1F1E9}\u{1F1E8}\u{1F1EB}\u{1F1E8}\u{1F1EC}\u{1F1E8}\u{1F1ED}\u{1F1E8}\u{1F1EE}\u{1F1E8}\u{1F1F0}\u{1F1E8}\u{1F1F1}\u{1F1E8}\u{1F1F2}\u{1F1E8}\u{1F1F3}\u{1F1E8}\u{1F1F4}\u{1F1E8}\u{1F1F7}\u{1F1E8}\u{1F1FA}\u{1F1E8}\u{1F1FB}\u{1F1E8}\u{1F1FC}\u{1F1E8}\u{1F1FD}\u{1F1E8}\u{1F1FE}\u{1F1E8}\u{1F1FF}\u{1F1E9}\u{1F1EA}\u{1F1E9}\u{1F1EF}\u{1F1E9}\u{1F1F0}\u{1F1E9}\u{1F1F2}\u{1F1E9}\u{1F1F4}\u{1F1E9}\u{1F1FF}\u{1F1EA}\u{1F1E8}\u{1F1EA}\u{1F1EA}\u{1F1EA}\u{1F1EC}\u{1F1EA}\u{1F1ED}\u{1F1EA}\u{1F1F7}\u{1F1EA}\u{1F1F8}\u{1F1EA}\u{1F1F9}\u{1F1EB}\u{1F1EE}\u{1F1EB}\u{1F1EF}\u{1F1EB}\u{1F1F0}\u{1F1EB}\u{1F1F2}\u{1F1EB}\u{1F1F4}\u{1F1EB}\u{1F1F7}\u{1F1EC}\u{1F1E6}\u{1F1EC}\u{1F1E7}\u{1F1EC}\u{1F1E9}\u{1F1EC}\u{1F1EA}\u{1F1EC}\u{1F1EB}\u{1F1EC}\u{1F1EC}\u{1F1EC}\u{1F1ED}\u{1F1EC}\u{1F1EE}\u{1F1EC}\u{1F1F1}\u{1F1EC}\u{1F1F2}\u{1F1EC}\u{1F1F3}\u{1F1EC}\u{1F1F5}\u{1F1EC}\u{1F1F6}\u{1F1EC}\u{1F1F7}\u{1F1EC}\u{1F1F8}\u{1F1EC}\u{1F1F9}\u{1F1EC}\u{1F1FA}\u{1F1EC}\u{1F1FC}\u{1F1EC}\u{1F1FE}\u{1F1ED}\u{1F1F0}\u{1F1ED}\u{1F1F2}\u{1F1ED}\u{1F1F3}\u{1F1ED}\u{1F1F7}\u{1F1ED}\u{1F1F9}\u{1F1ED}\u{1F1FA}\u{1F1EE}\u{1F1E9}\u{1F1EE}\u{1F1EA}\u{1F1EE}\u{1F1F1}\u{1F1EE}\u{1F1F2}\u{1F1EE}\u{1F1F3}\u{1F1EE}\u{1F1F4}\u{1F1EE}\u{1F1F6}\u{1F1EE}\u{1F1F7}\u{1F1EE}\u{1F1F8}\u{1F1EE}\u{1F1F9}\u{1F1EF}\u{1F1EA}\u{1F1EF}\u{1F1F2}\u{1F1EF}\u{1F1F4}\u{1F1EF}\u{1F1F5}\u{1F1F0}\u{1F1EA}\u{1F1F0}\u{1F1EC}\u{1F1F0}\u{1F1ED}\u{1F1F0}\u{1F1EE}\u{1F1F0}\u{1F1F2}\u{1F1F0}\u{1F1F3}\u{1F1F0}\u{1F1F5}\u{1F1F0}\u{1F1F7}\u{1F1F0}\u{1F1FC}\u{1F1F0}\u{1F1FE}\u{1F1F0}\u{1F1FF}\u{1F1F1}\u{1F1E6}\u{1F1F1}\u{1F1E7}\u{1F1F1}\u{1F1E8}\u{1F1F1}\u{1F1EE}\u{1F1F1}\u{1F1F0}\u{1F1F1}\u{1F1F7}\u{1F1F1}\u{1F1F8}\u{1F1F1}\u{1F1F9}\u{1F1F1}\u{1F1FA}\u{1F1F1}\u{1F1FB}\u{1F1F1}\u{1F1FE}\u{1F1F2}\u{1F1E6}\u{1F1F2}\u{1F1E8}\u{1F1F2}\u{1F1E9}\u{1F1F2}\u{1F1EA}\u{1F1F2}\u{1F1EB}\u{1F1F2}\u{1F1EC}\u{1F1F2}\u{1F1ED}\u{1F1F2}\u{1F1F0}\u{1F1F2}\u{1F1F1}\u{1F1F2}\u{1F1F2}\u{1F1F2}\u{1F1F3}\u{1F1F2}\u{1F1F4}\u{1F1F2}\u{1F1F5}\u{1F1F2}\u{1F1F6}\u{1F1F2}\u{1F1F7}\u{1F1F2}\u{1F1F8}\u{1F1F2}\u{1F1F9}\u{1F1F2}\u{1F1FA}\u{1F1F2}\u{1F1FB}\u{1F1F2}\u{1F1FC}\u{1F1F2}\u{1F1FD}\u{1F1F2}\u{1F1FE}\u{1F1F2}\u{1F1FF}\u{1F1F3}\u{1F1E6}\u{1F1F3}\u{1F1E8}\u{1F1F3}\u{1F1EA}\u{1F1F3}\u{1F1EB}\u{1F1F3}\u{1F1EC}\u{1F1F3}\u{1F1EE}\u{1F1F3}\u{1F1F1}\u{1F1F3}\u{1F1F4}\u{1F1F3}\u{1F1F5}\u{1F1F3}\u{1F1F7}\u{1F1F3}\u{1F1FA}\u{1F1F3}\u{1F1FF}\u{1F1F4}\u{1F1F2}\u{1F1F5}\u{1F1E6}\u{1F1F5}\u{1F1EA}\u{1F1F5}\u{1F1EB}\u{1F1F5}\u{1F1EC}\u{1F1F5}\u{1F1ED}\u{1F1F5}\u{1F1F0}\u{1F1F5}\u{1F1F1}\u{1F1F5}\u{1F1F2}\u{1F1F5}\u{1F1F3}\u{1F1F5}\u{1F1F7}\u{1F1F5}\u{1F1F8}\u{1F1F5}\u{1F1F9}\u{1F1F5}\u{1F1FC}\u{1F1F5}\u{1F1FE}\u{1F1F6}\u{1F1E6}\u{1F1F7}\u{1F1EA}\u{1F1F7}\u{1F1F4}\u{1F1F7}\u{1F1F8}\u{1F1F7}\u{1F1FA}\u{1F1F7}\u{1F1FC}\u{1F1F8}\u{1F1E6}\u{1F1F8}\u{1F1E7}\u{1F1F8}\u{1F1E8}\u{1F1F8}\u{1F1E9}\u{1F1F8}\u{1F1EA}\u{1F1F8}\u{1F1EC}\u{1F1F8}\u{1F1ED}\u{1F1F8}\u{1F1EE}\u{1F1F8}\u{1F1EF}\u{1F1F8}\u{1F1F0}\u{1F1F8}\u{1F1F1}\u{1F1F8}\u{1F1F2}\u{1F1F8}\u{1F1F3}\u{1F1F8}\u{1F1F4}\u{1F1F8}\u{1F1F7}\u{1F1F8}\u{1F1F8}\u{1F1F8}\u{1F1F9}\u{1F1F8}\u{1F1FB}\u{1F1F8}\u{1F1FD}\u{1F1F8}\u{1F1FE}\u{1F1F8}\u{1F1FF}\u{1F1F9}\u{1F1E8}\u{1F1F9}\u{1F1E9}\u{1F1F9}\u{1F1EB}\u{1F1F9}\u{1F1EC}\u{1F1F9}\u{1F1ED}\u{1F1F9}\u{1F1EF}\u{1F1F9}\u{1F1F0}\u{1F1F9}\u{1F1F1}\u{1F1F9}\u{1F1F2}\u{1F1F9}\u{1F1F3}\u{1F1F9}\u{1F1F4}\u{1F1F9}\u{1F1F7}\u{1F1F9}\u{1F1F9}\u{1F1F9}\u{1F1FB}\u{1F1F9}\u{1F1FC}\u{1F1F9}\u{1F1FF}\u{1F1FA}\u{1F1E6}\u{1F1FA}\u{1F1EC}\u{1F1FA}\u{1F1F2}\u{1F1FA}\u{1F1F8}\u{1F1FA}\u{1F1FE}\u{1F1FA}\u{1F1FF}\u{1F1FB}\u{1F1E6}\u{1F1FB}\u{1F1E8}\u{1F1FB}\u{1F1EA}\u{1F1FB}\u{1F1EC}\u{1F1FB}\u{1F1EE}\u{1F1FB}\u{1F1F3}\u{1F1FB}\u{1F1FA}\u{1F1FC}\u{1F1EB}\u{1F1FC}\u{1F1F8}\u{1F1FE}\u{1F1EA}\u{1F1FE}\u{1F1F9}\u{1F1FF}\u{1F1E6}\u{1F1FF}\u{1F1F2}\u{1F1FF}\u{1F1FC}";

/// The ISO 639-1 codes of languages written right to left, separated by single spaces.
pub const RTL_LANGUAGES: &'static str = "ar dv fa he ks ku pa ps sd tk ug ur yi";

/// The ISO 639-1 codes of languages written left to right, separated by single spaces.
pub const LTR_LANGUAGES: &'static str = "aa ab ae af ak am an as av ay az ba be bg bi bn bo br bs ca ce ch co cr cs cu cv cy da de dz ee el en eo es et eu ff fi fj fo fr fy ga gd gl gn gu gv ha hi ho hr ht hu hy hz ia id ie ig ii ik io is it iu jv ka kg ki kj kk kl km kn kr kv kw ky la lb lg li ln lo lt lu lv mg mh mi mk ml mr ms mt my na nb nd ne ng nl nn no nr nv ny oc oj om or os pi pl pt qu rm rn ro ru rw sa sc se sg si sk sl sm sn so sq sr ss st su sv sw ta te tg th ti tl tn to tr ts tt tw ty uk uz ve vo wa wo xh yo zu";

/// The text of `s` in lower case, as Unicode defines it.
pub uninterp spec fn lowercase_of(s: Seq<char>) -> Seq<char>;

/// The text of `s` in upper case, as Unicode defines it.
pub uninterp spec fn uppercase_of(s: Seq<char>) -> Seq<char>;

/// Relies on `str::to_lowercase`.
#[verifier::external_body]
fn to_lowercase(s: &str) -> (r: String)
    ensures
        r@ == lowercase_of(s@),
        s@.len() == 0 ==> r@.len() == 0,
{
    s.to_lowercase()
}

/// Relies on `str::to_uppercase`.
#[verifier::external_body]
fn to_uppercase(s: &str) -> (r: String)
    ensures
        r@ == uppercase_of(s@),
        s@.len() == 0 ==> r@.len() == 0,
{
    s.to_uppercase()
}

/// The index of the first `c` in `s`, or the length of `s` where there is none.
pub open spec fn index_of(s: Seq<char>, c: char) -> int
    decreases s.len(),
{
    if s.len() == 0 {
        0
    } else if s[0] == c {
        0
    } else {
        1 + index_of(s.drop_first(), c)
    }
}

/// The separator of the subtags of `s`: `_` where it holds one, else `-`
/// where it holds one.
pub open spec fn separator_of(s: Seq<char>) -> Option<char> {
    if index_of(s, '_') < s.len() {
        Some('_')
    } else if index_of(s, '-') < s.len() {
        Some('-')
    } else {
        None
    }
}

/// The language part of an identifier in lower case: the text before the
/// first separator, or the whole identifier where there is none.
pub open spec fn iso639_of(s: Seq<char>) -> Seq<char> {
    match separator_of(s) {
        Some(c) => lowercase_of(s.take(index_of(s, c))),
        None => lowercase_of(s),
    }
}

/// The region part of an identifier: the text between the first separator
/// and the next one (or the end); `None` where there is no separator.
pub open spec fn country_code_of(s: Seq<char>) -> Option<Seq<char>> {
    match separator_of(s) {
        Some(c) => {
            let rest = s.skip(index_of(s, c) + 1);
            Some(rest.take(index_of(rest, c)))
        },
        None => None,
    }
}

/// The position of the two-letter `code` in a table of two-letter entries
/// separated by single characters.
pub open spec fn code_index(table: Seq<char>, code: Seq<char>) -> Option<int>
    decreases table.len(),
{
    if table.len() < 2 {
        None
    } else if table[0] == code[0] && table[1] == code[1] {
        Some(0)
    } else if table.len() < 3 {
        None
    } else {
        match code_index(table.skip(3), code) {
            Some(j) => Some(j + 1),
            None => None,
        }
    }
}

/// The flag of the region of an identifier, where its upper-cased region is
/// a country code with a flag.
pub open spec fn flag_of(langid: Seq<char>) -> Option<Seq<char>> {
    match country_code_of(langid) {
        Some(code) => {
            let up = uppercase_of(code);
            if up.len() == 2 {
                match code_index(COUNTRY_CODES@, up) {
                    Some(i) => if 2 * i + 2 <= COUNTRY_FLAGS@.len() {
                        Some(COUNTRY_FLAGS@.subrange(2 * i, 2 * i + 2))
                    } else {
                        None
                    },
                    None => None,
                }
            } else {
                None
            }
        },
        None => None,
    }
}

/// The writing direction of a two-letter language code: `rtl`, `ltr`, or
/// `auto` for the rest (among them the languages written top to bottom).
pub open spec fn dir_of(langid: Seq<char>) -> Seq<char> {
    if langid.len() == 2 && code_index(RTL_LANGUAGES@, langid) is Some {
        "rtl"@
    } else if langid.len() == 2 && code_index(LTR_LANGUAGES@, langid) is Some {
        "ltr"@
    } else {
        "auto"@
    }
}

proof fn lemma_index_of(s: Seq<char>, c: char, i: int)
    requires
        0 <= i <= s.len(),
        forall|j: int| 0 <= j < i ==> s[j] != c,
        i == s.len() || s[i] == c,
    ensures
        index_of(s, c) == i,
    decreases s.len(),
{
    if s.len() > 0 && i > 0 {
        lemma_index_of(s.drop_first(), c, i - 1);
    }
}

proof fn lemma_index_of_bound(s: Seq<char>, c: char)
    ensures
        0 <= index_of(s, c) <= s.len(),
        index_of(s, c) < s.len() ==> s[index_of(s, c)] == c,
    decreases s.len(),
{
    if s.len() > 0 && s[0] != c {
        lemma_index_of_bound(s.drop_first(), c);
    }
}

/// The index of the first `c` in `s`, or the length of `s`.
fn find_char(s: &str, c: char) -> (r: usize)
    ensures
        r == index_of(s@, c),
{
    let n = s.unicode_len();
    let mut i: usize = 0;
    while i < n
        invariant
            n == s@.len(),
            i <= n,
            forall|j: int| 0 <= j < i ==> s@[j] != c,
        decreases n - i,
    {
        if s.get_char(i) == c {
            proof {
                lemma_index_of(s@, c, i as int);
            }
            return i;
        }
        i = i + 1;
    }
    proof {
        lemma_index_of(s@, c, i as int);
    }
    i
}

/// Converts a language identifier into its ISO 639 language code.
pub fn langid_to_iso639(langid: &str) -> (r: String)
    ensures
        r@ == iso639_of(langid@),
{
    let n = langid.unicode_len();
    let u = find_char(langid, '_');
    if u < n {
        return to_lowercase(langid.substring_char(0, u));
    }
    let h = find_char(langid, '-');
    if h < n {
        return to_lowercase(langid.substring_char(0, h));
    }
    to_lowercase(langid)
}

/// The region code of a language identifier, if it has one.
pub fn langid_to_country_code(langid: &str) -> (r: Option<String>)
    ensures
        r matches Some(code) ==> country_code_of(langid@) == Some(code@),
        r is None ==> country_code_of(langid@) is None,
{
    let n = langid.unicode_len();
    let u = find_char(langid, '_');
    let sep = if u < n {
        '_'
    } else if find_char(langid, '-') < n {
        '-'
    } else {
        return None;
    };
    let p = find_char(langid, sep);
    let rest = langid.substring_char(p + 1, n);
    let q = find_char(rest, sep);
    proof {
        lemma_index_of_bound(rest@, sep);
    }
    Some(String::from_str(rest.substring_char(0, q)))
}

proof fn lemma_code_index_bound(table: Seq<char>, code: Seq<char>)
    ensures
        code_index(table, code) matches Some(i) ==> 0 <= i && 3 * i + 2 <= table.len(),
    decreases table.len(),
{
    if table.len() >= 3 && !(table[0] == code[0] && table[1] == code[1]) {
        lemma_code_index_bound(table.skip(3), code);
    }
}

pub open spec fn static_text(r: Option<&'static str>) -> Option<Seq<char>> {
    match r {
        Some(s) => Some(s@),
        None => None,
    }
}

/// Converts a language identifier into the flag of its region.
pub fn langid_to_flag(langid: &str) -> (r: Option<&'static str>)
    ensures
        static_text(r) == flag_of(langid@),
{
    let code = match langid_to_country_code(langid) {
        Some(code) => code,
        None => {
            return None;
        },
    };
    let up = to_uppercase(code.as_str());
    if up.as_str().unicode_len() != 2 {
        return None;
    }
    match find_code(COUNTRY_CODES, up.as_str()) {
        Some(i) => {
            proof {
                lemma_code_index_bound(COUNTRY_CODES@, up@);
            }
            let flags_len = COUNTRY_FLAGS.unicode_len();
            if i < flags_len / 2 {
                Some(COUNTRY_FLAGS.substring_char(2 * i, 2 * i + 2))
            } else {
                None
            }
        },
        None => None,
    }
}

/// Converts a two-letter language code into the language's writing direction.
pub fn langid_to_dir(langid: &str) -> (r: &'static str)
    ensures
        r@ == dir_of(langid@),
{
    proof {
        reveal_strlit("rtl");
        reveal_strlit("ltr");
        reveal_strlit("auto");
    }
    if langid.unicode_len() == 2 {
        if find_code(RTL_LANGUAGES, langid).is_some() {
            return "rtl";
        }
        if find_code(LTR_LANGUAGES, langid).is_some() {
            return "ltr";
        }
    }
    "auto"
}

/// The normalized text of a language identifier: the language in lower case,
/// then, where there is a region, `-` and the region in upper case.
pub open spec fn normalized_id(s: Seq<char>) -> Seq<char> {
    iso639_of(s) + match country_code_of(s) {
        Some(c) => seq!['-'] + uppercase_of(c),
        None => Seq::empty(),
    }
}

/// What is known of a language: its normalized id, the flag of its region
/// (empty where there is none) and its writing direction.
#[derive(Debug, Clone, PartialEq, Eq, Hash)]
pub struct Lang {
    pub id: String,
    pub flag: &'static str,
    pub dir: &'static str,
}

/// Whether `l` describes the language identifier `tag`.
pub open spec fn describes(l: Lang, tag: Seq<char>) -> bool {
    &&& l.id@ == normalized_id(tag)
    &&& l.flag@ == match flag_of(tag) {
        Some(f) => f,
        None => Seq::empty(),
    }
    &&& l.dir@ == dir_of(iso639_of(tag))
}

impl Lang {
    /// The description of the language `langid`.
    pub fn new(langid: &LanguageTag) -> (r: Lang)
        ensures
            describes(r, langid@),
    {
        Lang::from_name(langid.as_str())
    }

    /// The description of the language identifier spelled `name`, valid or not.
    pub fn from_name(name: &str) -> (r: Lang)
        ensures
            describes(r, name@),
    {
        let primary = langid_to_iso639(name);
        let mut id = primary.clone();
        match langid_to_country_code(name) {
            Some(region) => {
                id.append("-");
                id.append(to_uppercase(region.as_str()).as_str());
                proof {
                    reveal_strlit("-");
                    assert(id@ =~= normalized_id(name@));
                }
            },
            None => {
                proof {
                    assert(id@ =~= normalized_id(name@));
                }
            },
        }
        let found = langid_to_flag(name);
        let flag = match found {
            Some(f) => f,
            None => {
                proof {
                    reveal_strlit("");
                }
                ""
            },
        };
        proof {
            assert(flag@ == match flag_of(name@) {
                Some(f) => f,
                None => Seq::empty(),
            });
        }
        let dir = langid_to_dir(primary.as_str());
        let r = Lang { id, flag, dir };
        proof {
            assert(r.id@ == normalized_id(name@));
            assert(r.dir@ == dir_of(iso639_of(name@)));
        }
        r
    }
}

/// The position of the two-letter `code` in `table`.
fn find_code(table: &str, code: &str) -> (r: Option<usize>)
    requires
        code@.len() == 2,
    ensures
        r matches Some(i) ==> code_index(table@, code@) == Some(i as int),
        r is None ==> code_index(table@, code@) is None,
{
    let n = table.unicode_len();
    let c0 = code.get_char(0);
    let c1 = code.get_char(1);
    let mut i: usize = 0;
    let mut pos: usize = 0;
    proof {
        assert(table@.skip(0) =~= table@);
    }
    while pos < n && n - pos >= 2
        invariant
            n == table@.len(),
            code@.len() == 2,
            pos == 3 * i,
            i <= pos,
            pos <= n,
            c0 == code@[0],
            c1 == code@[1],
            code_index(table@, code@) == match code_index(table@.skip(pos as int), code@) {
                Some(j) => Some(j + i),
                None => None::<int>,
            },
        decreases n - pos,
    {
        let ghost rest = table@.skip(pos as int);
        if table.get_char(pos) == c0 && table.get_char(pos + 1) == c1 {
            return Some(i);
        }
        if n - pos < 3 {
            return None;
        }
        proof {
            assert(rest.skip(3) =~= table@.skip(pos + 3));
        }
        pos = pos + 3;
        i = i + 1;
    }
    None
}

} // verus!
