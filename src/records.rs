//! Record types of the sample payloads the converters are exercised on:
//! a venue catalogue and the user part of a social-media timeline.
use vstd::prelude::*;
use std::collections::BTreeMap;
use vstd::string::StrSliceExecFns;

verus! {

/// A value written on the wire as the string of its decimal form.
#[derive(Debug, Clone, Copy, PartialEq, Eq, PartialOrd, Ord)]
pub struct PrimStr<T>(pub T);

/// A numeric identifier.
pub type Id = u32;

/// A numeric identifier written as a string.
pub type IdStr = PrimStr<u32>;

/// The upper-case hexadecimal digit of `n`, for `0 <= n < 16`.
pub open spec fn hex_digit(n: int) -> u8 {
    if n < 10 {
        (48 + n) as u8
    } else {
        (55 + n) as u8
    }
}

/// The value of the digit `c` in base `radix`: `0`-`9`, then letters of
/// either case from 10 up.
pub open spec fn digit_value(c: char, radix: nat) -> Option<nat> {
    let n = c as u32;
    let v: int = if 48 <= n <= 57 {
        n - 48
    } else if 97 <= n <= 122 {
        n - 87
    } else if 65 <= n <= 90 {
        n - 55
    } else {
        99
    };
    if v < radix {
        Some(v as nat)
    } else {
        None
    }
}

/// The number the digits `s` write in base `radix`, most significant
/// first; `None` where one of them is not a digit of that base.
pub open spec fn digits_value(s: Seq<char>, radix: nat) -> Option<nat>
    decreases s.len(),
{
    if s.len() == 0 {
        Some(0)
    } else {
        match (digits_value(s.drop_last(), radix), digit_value(s.last(), radix)) {
            (Some(a), Some(d)) => Some(a * radix + d),
            _ => None,
        }
    }
}

/// What parsing `s` as an unsigned 32-bit integer in base `radix` gives:
/// an optional leading `+`, then at least one digit, with a value that
/// fits.
pub open spec fn parse_u32(s: Seq<char>, radix: nat) -> Option<u32> {
    let body = if s.len() > 0 && s[0] == '+' {
        s.drop_first()
    } else {
        s
    };
    if body.len() == 0 {
        None
    } else {
        match digits_value(body, radix) {
            Some(n) => if n <= u32::MAX {
                Some(n as u32)
            } else {
                None
            },
            None => None,
        }
    }
}

/// Parses an unsigned 32-bit integer written in base `radix`.
pub fn parse_radix_u32(s: &str, radix: u32) -> (r: Option<u32>)
    requires
        2 <= radix <= 36,
    ensures
        r == parse_u32(s@, radix as nat),
{
    let len = s.unicode_len();
    let mut start: usize = 0;
    if len > 0 && s.get_char(0) == '+' {
        start = 1;
    }
    let ghost body = if s@.len() > 0 && s@[0] == '+' {
        s@.drop_first()
    } else {
        s@
    };
    assert(body =~= s@.subrange(start as int, len as int));
    if start == len {
        return None;
    }
    let mut acc: u64 = 0;
    let mut over = false;
    let mut i: usize = start;
    while i < len
        invariant
            start <= i <= len,
            len == s@.len(),
            2 <= radix <= 36,
            body =~= s@.subrange(start as int, len as int),
            body == if s@.len() > 0 && s@[0] == '+' {
                s@.drop_first()
            } else {
                s@
            },
            digits_value(s@.subrange(start as int, i as int), radix as nat) is Some,
            !over ==> acc as nat == digits_value(s@.subrange(start as int, i as int), radix as nat)->0,
            !over ==> acc <= u32::MAX,
            over ==> digits_value(s@.subrange(start as int, i as int), radix as nat)->0 > u32::MAX,
        decreases len - i,
    {
        let c = s.get_char(i);
        let n = c as u32;
        let v: u32 = if 48 <= n && n <= 57 {
            n - 48
        } else if 97 <= n && n <= 122 {
            n - 87
        } else if 65 <= n && n <= 90 {
            n - 55
        } else {
            99
        };
        let ghost prefix = s@.subrange(start as int, i as int);
        let ghost next = s@.subrange(start as int, i + 1);
        assert(next.drop_last() =~= prefix);
        assert(next.last() == c);
        if v >= radix {
            proof {
                assert(s@.subrange(start as int, len as int)[i - start] == c);
                assert(digit_value(c, radix as nat) is None);
                lemma_digits_invalid(s@.subrange(start as int, len as int), (i - start) as int, radix as nat);
            }
            return None;
        }
        let ghost k = digits_value(prefix, radix as nat)->0;
        assert(digits_value(next, radix as nat) == Some((k * radix + v) as nat));
        if !over {
            assert(acc * (radix as u64) + (v as u64) <= 0xFFFF_FFFF * 36 + 36) by (nonlinear_arith)
                requires
                    acc <= 0xFFFF_FFFF,
                    radix <= 36,
                    v < radix,
            ;
            let grown = acc * (radix as u64) + (v as u64);
            if grown > u32::MAX as u64 {
                over = true;
            } else {
                acc = grown;
            }
        } else {
            assert(k * radix + v >= k) by (nonlinear_arith)
                requires
                    radix >= 2,
                    k >= 0,
                    v >= 0,
            ;
        }
        i += 1;
    }
    assert(s@.subrange(start as int, len as int) =~= body);
    if over {
        None
    } else {
        Some(acc as u32)
    }
}

/// Where the character at `i` is not a digit, the whole is no number.
proof fn lemma_digits_invalid(s: Seq<char>, i: int, radix: nat)
    requires
        0 <= i < s.len(),
        digit_value(s[i], radix) is None,
    ensures
        digits_value(s, radix) is None,
    decreases s.len(),
{
    if i < s.len() - 1 {
        assert(s.drop_last()[i] == s[i]);
        lemma_digits_invalid(s.drop_last(), i, radix);
    }
}

impl PrimStr<u32> {
    /// Reads the decimal text of a number, as written on the wire.
    pub fn from_decimal(s: &str) -> (r: Option<PrimStr<u32>>)
        ensures
            r == match parse_u32(s@, 10) {
                Some(n) => Some(PrimStr(n)),
                None => None::<PrimStr<u32>>,
            },
    {
        match parse_radix_u32(s, 10) {
            Some(n) => Some(PrimStr(n)),
            None => None,
        }
    }
}

/// An RGB colour: the low 24 bits hold red, green and blue.
#[derive(Debug, Clone, Copy)]
pub struct Color(pub u32);

impl Color {
    /// The six upper-case hexadecimal digits of the colour, red first; bits
    /// above the low 24 are ignored.
    pub fn hex_digits(self) -> (r: Vec<u8>)
        ensures
            r@.len() == 6,
            forall|i: int| 0 <= i < 6 ==> #[trigger] r@[i] == hex_digit(
                (self.0 as int / seq![1048576int, 65536, 4096, 256, 16, 1][i]) % 16,
            ),
    {
        let divisors: [u32; 6] = [1048576, 65536, 4096, 256, 16, 1];
        let mut out: Vec<u8> = Vec::with_capacity(6);
        let mut i: usize = 0;
        while i < 6
            invariant
                0 <= i <= 6,
                out@.len() == i,
                divisors@ == seq![1048576u32, 65536, 4096, 256, 16, 1],
                forall|j: int| 0 <= j < i ==> #[trigger] out@[j] == hex_digit(
                    (self.0 as int / seq![1048576int, 65536, 4096, 256, 16, 1][j]) % 16,
                ),
            decreases 6 - i,
        {
            let n = (self.0 / divisors[i]) % 16;
            let digit: u8 = if n < 10 {
                48 + n as u8
            } else {
                55 + n as u8
            };
            out.push(digit);
            i += 1;
        }
        out
    }

    /// Reads a colour from its hexadecimal text, as written on the wire.
    pub fn from_hex(s: &str) -> (r: Option<Color>)
        ensures
            r == match parse_u32(s@, 16) {
                Some(n) => Some(Color(n)),
                None => None::<Color>,
            },
    {
        match parse_radix_u32(s, 16) {
            Some(n) => Some(Color(n)),
            None => None,
        }
    }
}

/// The kind of a geographic object.
#[derive(Debug, Clone, Copy, PartialEq, Eq)]
pub enum ObjType {
    FeatureCollection,
    Feature,
    Polygon,
}

/// How a media size was obtained.
#[derive(Debug, Clone, Copy, PartialEq, Eq)]
pub enum Resize {
    Fit,
    Crop,
}

/// A language of the timeline.
#[derive(Debug, Clone, Copy, PartialEq, Eq)]
pub enum LanguageCode {
    Cn,
    En,
    Es,
    It,
    Ja,
    Zh,
}

/// The kind of a search result.
#[derive(Debug, Clone, Copy, PartialEq, Eq)]
pub enum ResultType {
    Recent,
}

impl ObjType {
    /// The variant's name on the wire.
    pub open spec fn spec_tag(self) -> Seq<char> {
        match self {
            ObjType::FeatureCollection => "FeatureCollection"@,
            ObjType::Feature => "Feature"@,
            ObjType::Polygon => "Polygon"@,
        }
    }

    /// The variant's name on the wire.
    pub fn tag(self) -> (r: &'static str)
        ensures
            r@ == self.spec_tag(),
    {
        match self {
            ObjType::FeatureCollection => "FeatureCollection",
            ObjType::Feature => "Feature",
            ObjType::Polygon => "Polygon",
        }
    }
}

impl Resize {
    /// The variant's name on the wire.
    pub open spec fn spec_tag(self) -> Seq<char> {
        match self {
            Resize::Fit => "fit"@,
            Resize::Crop => "crop"@,
        }
    }

    /// The variant's name on the wire.
    pub fn tag(self) -> (r: &'static str)
        ensures
            r@ == self.spec_tag(),
    {
        match self {
            Resize::Fit => "fit",
            Resize::Crop => "crop",
        }
    }
}

impl LanguageCode {
    /// The variant's name on the wire.
    pub open spec fn spec_tag(self) -> Seq<char> {
        match self {
            LanguageCode::Cn => "zh-cn"@,
            LanguageCode::En => "en"@,
            LanguageCode::Es => "es"@,
            LanguageCode::It => "it"@,
            LanguageCode::Ja => "ja"@,
            LanguageCode::Zh => "zh"@,
        }
    }

    /// The variant's name on the wire.
    pub fn tag(self) -> (r: &'static str)
        ensures
            r@ == self.spec_tag(),
    {
        match self {
            LanguageCode::Cn => "zh-cn",
            LanguageCode::En => "en",
            LanguageCode::Es => "es",
            LanguageCode::It => "it",
            LanguageCode::Ja => "ja",
            LanguageCode::Zh => "zh",
        }
    }
}

impl ResultType {
    /// The variant's name on the wire.
    pub open spec fn spec_tag(self) -> Seq<char> {
        match self {
            ResultType::Recent => "recent"@,
        }
    }

    /// The variant's name on the wire.
    pub fn tag(self) -> (r: &'static str)
        ensures
            r@ == self.spec_tag(),
    {
        match self {
            ResultType::Recent => "recent",
        }
    }
}

/// A venue catalogue.
pub struct CitmCatalog {
    pub area_names: BTreeMap<IdStr, String>,
    pub audience_sub_category_names: BTreeMap<IdStr, String>,
    pub block_names: BTreeMap<IdStr, String>,
    pub events: BTreeMap<IdStr, Event>,
    pub performances: Vec<Performance>,
    pub seat_category_names: BTreeMap<IdStr, String>,
    pub sub_topic_names: BTreeMap<IdStr, String>,
    pub subject_names: BTreeMap<IdStr, String>,
    pub topic_names: BTreeMap<IdStr, String>,
    pub topic_sub_topics: BTreeMap<IdStr, Vec<Id>>,
    pub venue_names: BTreeMap<String, String>,
}

pub struct Event {
    pub description: (),
    pub id: Id,
    pub logo: Option<String>,
    pub name: String,
    pub sub_topic_ids: Vec<Id>,
    pub subject_code: (),
    pub subtitle: (),
    pub topic_ids: Vec<Id>,
}

pub struct Performance {
    pub event_id: Id,
    pub id: Id,
    pub logo: Option<String>,
    pub name: (),
    pub prices: Vec<Price>,
    pub seat_categories: Vec<SeatCategory>,
    pub seat_map_image: (),
    pub start: u64,
    pub venue_code: String,
}

pub struct Price {
    pub amount: u32,
    pub audience_sub_category_id: Id,
    pub seat_category_id: Id,
}

pub struct SeatCategory {
    pub areas: Vec<Area>,
    pub seat_category_id: Id,
}

pub struct Area {
    pub area_id: Id,
    pub block_ids: [(); 0],
}

/// A pair of character offsets into a text.
pub type Indices = (u8, u8);

/// A short numeric identifier.
pub type ShortId = u32;

/// A short numeric identifier written as a string.
pub type ShortIdStr = PrimStr<ShortId>;

pub struct Metadata {
    pub result_type: ResultType,
    pub iso_language_code: LanguageCode,
}

pub struct User {
    pub id: ShortId,
    pub id_str: ShortIdStr,
    pub name: String,
    pub screen_name: String,
    pub location: String,
    pub description: String,
    pub url: Option<String>,
    pub entities: UserEntities,
    pub protected: bool,
    pub followers_count: u32,
    pub friends_count: u32,
    pub listed_count: u32,
    pub created_at: String,
    pub favourites_count: u32,
    pub utc_offset: Option<i32>,
    pub time_zone: Option<String>,
    pub geo_enabled: bool,
    pub verified: bool,
    pub statuses_count: u32,
    pub lang: LanguageCode,
    pub contributors_enabled: bool,
    pub is_translator: bool,
    pub is_translation_enabled: bool,
    pub profile_background_color: Color,
    pub profile_background_image_url: String,
    pub profile_background_image_url_https: String,
    pub profile_background_tile: bool,
    pub profile_image_url: String,
    pub profile_image_url_https: String,
    pub profile_banner_url: Option<String>,
    pub profile_link_color: Color,
    pub profile_sidebar_border_color: Color,
    pub profile_sidebar_fill_color: Color,
    pub profile_text_color: Color,
    pub profile_use_background_image: bool,
    pub default_profile: bool,
    pub default_profile_image: bool,
    pub following: bool,
    pub follow_request_sent: bool,
    pub notifications: bool,
}

pub struct UserEntities {
    pub url: Option<UserUrl>,
    pub description: UserEntitiesDescription,
}

pub struct UserUrl {
    pub urls: Vec<Url>,
}

pub struct Url {
    pub url: String,
    pub expanded_url: String,
    pub display_url: String,
    pub indices: Indices,
}

pub struct UserEntitiesDescription {
    pub urls: Vec<Url>,
}

pub struct Hashtag {
    pub text: String,
    pub indices: Indices,
}

pub struct UserMention {
    pub screen_name: String,
    pub name: String,
    pub id: ShortId,
    pub id_str: ShortIdStr,
    pub indices: Indices,
}

pub struct Sizes {
    pub medium: Size,
    pub small: Size,
    pub thumb: Size,
    pub large: Size,
}

pub struct Size {
    pub w: u16,
    pub h: u16,
    pub resize: Resize,
}

} // verus!
