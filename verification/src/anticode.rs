//! The signed query that the Huya delivery network asks for.

use crate::live::{tells, LiveError};
use crate::outside::{random_below, string_from_utf8, utf8_fault};
use crate::outside_web::{base64_decode, base64_read, md5_digest, md5_of, nanos_since_epoch, percent_decode, percent_decoded, percent_encode, percent_encoded, query_pairs, read_query};
use crate::text::{chars_of, cut_at, decimal, decimal_string, hex_string, hexadecimal, lower, pairs_of, parse_number, parsed, push_decimal, same_ignoring_case, same_text, up_to};
use crate::time::{MAX_DURATION_NANOS, NANOS_PER_MILLI, NANOS_PER_SEC};
use vstd::prelude::*;
use vstd::utf8::{decode_utf8, encode_utf8, valid_utf8};

verus! {

// ---------------------------------------------------------------------------
// Users
// ---------------------------------------------------------------------------

/// The low 32 bits turned left by eight, the high ones kept.
pub open spec fn turned(value: u64) -> int {
    let low = value as int % 0x1_0000_0000;
    value - low + (low * 0x100) % 0x1_0000_0000 + low / 0x100_0000
}

/// Turns the low 32 bits left by eight and keeps the high ones.
pub fn rotl64(value: u64) -> (result: u64)
    ensures
        result == turned(value),
{
    let low: u64 = value % 0x1_0000_0000;
    let high: u64 = value - low;
    let result: u64 = high + (low * 0x100) % 0x1_0000_0000 + low / 0x100_0000;
    result
}

/// The numbers that stand for a user who is not known.
pub open spec fn is_random_uid(uid: u64) -> bool {
    12340000 <= uid < 12350000 || 1400000000000 <= uid < 1400010000000
}

/// How many users of a kind can be drawn.
pub open spec fn uid_count(short: bool) -> int {
    if short {
        10000
    } else {
        10000000
    }
}

/// The user of a kind that `n` stands for.
pub open spec fn numbered_uid(short: bool, n: u64) -> int {
    if short {
        12340000 + n
    } else {
        1400000000000 + n
    }
}

/// The user of a kind that `n` stands for.
pub fn uid_of(short: bool, n: u64) -> (uid: u64)
    requires
        n < uid_count(short),
    ensures
        uid == numbered_uid(short, n),
        is_random_uid(uid),
{
    if short {
        12340000 + n
    } else {
        1400000000000 + n
    }
}

/// Draws a user.
pub fn generate_random_uid() -> (uid: u64)
    ensures
        is_random_uid(uid),
{
    if random_below(2) == 1 {
        uid_of(true, random_below(10000))
    } else {
        uid_of(false, random_below(10000000))
    }
}

// ---------------------------------------------------------------------------
// Platforms
// ---------------------------------------------------------------------------

/// How many platforms there are.
pub const PLATFORM_COUNT: u64 = 9;

/// A platform: its name and its number.
pub open spec fn platform(i: int) -> (Seq<char>, Seq<char>) {
    if i == 0 {
        ("huya_pc_exe"@, "0"@)
    } else if i == 1 {
        ("huya_adr"@, "2"@)
    } else if i == 2 {
        ("huya_ios"@, "3"@)
    } else if i == 3 {
        ("tv_huya_nftv"@, "10"@)
    } else if i == 4 {
        ("huya_webh5"@, "100"@)
    } else if i == 5 {
        ("huya_live"@, "100"@)
    } else if i == 6 {
        ("tars_mp"@, "102"@)
    } else if i == 7 {
        ("tars_mobile"@, "103"@)
    } else {
        ("huya_liveshareh5"@, "104"@)
    }
}

/// The platform at a place in the table.
pub fn platform_at(i: u64) -> (entry: (&'static str, &'static str))
    requires
        i < PLATFORM_COUNT,
    ensures
        (entry.0@, entry.1@) == platform(i as int),
{
    match i {
        0 => ("huya_pc_exe", "0"),
        1 => ("huya_adr", "2"),
        2 => ("huya_ios", "3"),
        3 => ("tv_huya_nftv", "10"),
        4 => ("huya_webh5", "100"),
        5 => ("huya_live", "100"),
        6 => ("tars_mp", "102"),
        7 => ("tars_mobile", "103"),
        _ => ("huya_liveshareh5", "104"),
    }
}

/// The first platform from `i` on that has the name, capitals aside.
pub open spec fn platform_named(name: Seq<char>, i: int) -> Option<int>
    decreases PLATFORM_COUNT - i,
{
    if i >= PLATFORM_COUNT {
        None
    } else if lower(platform(i).0) == lower(name) {
        Some(i)
    } else {
        platform_named(name, i + 1)
    }
}

/// The number of a platform, by its name.
pub fn platform_id_for_ctype(ctype: &str) -> (id: Option<String>)
    ensures
        match platform_named(ctype@, 0) {
            Some(i) => id is Some && (id->0)@ == platform(i).1,
            None => id is None,
        },
{
    let mut i: u64 = 0;
    while i < PLATFORM_COUNT
        invariant
            i <= PLATFORM_COUNT,
            platform_named(ctype@, 0) == platform_named(ctype@, i as int),
        decreases PLATFORM_COUNT - i,
    {
        let (name, id) = platform_at(i);
        if same_ignoring_case(name, ctype) {
            return Some(id.to_owned());
        }
        i += 1;
    }
    None
}

/// A platform of the table.
pub open spec fn is_platform(ctype: Seq<char>, id: Seq<char>) -> bool {
    exists|i: int| 0 <= i < PLATFORM_COUNT && #[trigger] platform(i) == (ctype, id)
}

/// Draws a platform.
pub fn random_platform() -> (entry: (String, String))
    ensures
        is_platform(entry.0@, entry.1@),
{
    let i: u64 = random_below(PLATFORM_COUNT);
    let (name, id) = platform_at(i);
    assert(platform(i as int) == (name@, id@));
    (name.to_owned(), id.to_owned())
}

// ---------------------------------------------------------------------------
// Queries
// ---------------------------------------------------------------------------

/// What a query holds for `key`: its last value.
pub open spec fn lookup(query: Seq<(Seq<char>, Seq<char>)>, key: Seq<char>) -> Option<Seq<char>>
    decreases query.len(),
{
    if query.len() == 0 {
        None
    } else if query.last().0 == key {
        Some(query.last().1)
    } else {
        lookup(query.drop_last(), key)
    }
}

fn find_value<'a>(query: &'a Vec<(String, String)>, key: &str) -> (value: Option<&'a str>)
    ensures
        match value {
            Some(text) => lookup(pairs_of(query@), key@) == Some(text@),
            None => lookup(pairs_of(query@), key@) is None,
        },
{
    let mut n: usize = query.len();
    assert(pairs_of(query@).take(n as int) =~= pairs_of(query@));
    while n > 0
        invariant
            n <= query.len(),
            lookup(pairs_of(query@), key@) == lookup(pairs_of(query@).take(n as int), key@),
        decreases n,
    {
        let ghost upto = pairs_of(query@).take(n as int);
        assert(upto.last() == (query@[n - 1].0@, query@[n - 1].1@));
        assert(upto.drop_last() =~= pairs_of(query@).take(n - 1));
        if same_text(query[n - 1].0.as_str(), key) {
            return Some(query[n - 1].1.as_str());
        }
        n -= 1;
    }
    None
}

/// The platform that a query names. A platform without a number gets its own, or that of the
/// web.
pub open spec fn named_platform(query: Seq<(Seq<char>, Seq<char>)>) -> Option<
    (Seq<char>, Seq<char>),
> {
    match lookup(query, "ctype"@) {
        Some(ctype) if ctype.len() > 0 => match lookup(query, "t"@) {
            Some(id) if id.len() > 0 => Some((ctype, id)),
            _ => match platform_named(ctype, 0) {
                Some(i) => Some((ctype, platform(i).1)),
                None => Some((ctype, "100"@)),
            },
        },
        _ => None,
    }
}

/// The platform that a query names.
pub fn known_platform(query: &Vec<(String, String)>) -> (entry: Option<(String, String)>)
    ensures
        match entry {
            Some((ctype, id)) => named_platform(pairs_of(query@)) == Some((ctype@, id@)),
            None => named_platform(pairs_of(query@)) is None,
        },
{
    let ctype: &str = match find_value(query, "ctype") {
        Some(ctype) => ctype,
        None => return None,
    };
    if ctype.is_empty() {
        return None;
    }
    match find_value(query, "t") {
        Some(id) => {
            if !id.is_empty() {
                return Some((ctype.to_owned(), id.to_owned()));
            }
        },
        None => {},
    }
    match platform_id_for_ctype(ctype) {
        Some(id) => Some((ctype.to_owned(), id)),
        None => Some((ctype.to_owned(), "100".to_owned())),
    }
}

/// A platform that a query may be signed for.
pub open spec fn fits_query(
    query: Seq<(Seq<char>, Seq<char>)>,
    ctype: Seq<char>,
    id: Seq<char>,
) -> bool {
    match named_platform(query) {
        Some(entry) => entry == (ctype, id),
        None => is_platform(ctype, id),
    }
}

/// The platform that a query names, or one that is drawn.
pub fn resolve_platform(query: &Vec<(String, String)>) -> (entry: (String, String))
    ensures
        fits_query(pairs_of(query@), entry.0@, entry.1@),
{
    match known_platform(query) {
        Some(entry) => entry,
        None => random_platform(),
    }
}

// ---------------------------------------------------------------------------
// Signing
// ---------------------------------------------------------------------------

/// The MD5 digest of a text.
pub fn md5_hex(input: &str) -> (digest: String)
    ensures
        digest@ == md5_of(encode_utf8(input@)),
{
    md5_digest(input.as_bytes())
}

/// The secret that the parameter `fm` carries: what stands before its first underscore, once it
/// is unescaped and decoded.
pub open spec fn secret_prefix(fm: Seq<char>) -> Result<Seq<char>, Seq<char>> {
    let raw = percent_decoded(encode_utf8(fm));
    if !valid_utf8(raw) {
        Err("解码虎牙 fm 参数失败: "@ + utf8_fault(raw))
    } else {
        match base64_read(encode_utf8(decode_utf8(raw))) {
            Err(e) => Err("解码虎牙 fm base64 失败: "@ + e),
            Ok(bytes) => if !valid_utf8(bytes) {
                Err("虎牙 fm 参数不是 UTF-8: "@ + utf8_fault(bytes))
            } else {
                Ok(up_to(decode_utf8(bytes), '_'))
            },
        }
    }
}

/// The secret that the parameter `fm` carries.
pub fn read_secret_prefix(fm: &str) -> (prefix: Result<String, LiveError>)
    ensures
        match secret_prefix(fm@) {
            Ok(text) => prefix is Ok && prefix->Ok_0@ == text,
            Err(text) => prefix is Err && tells(prefix->Err_0, text),
        },
{
    let unescaped: String = match percent_decode(fm) {
        Ok(text) => text,
        Err(e) => return Err(LiveError::because("解码虎牙 fm 参数失败: ", e.as_str())),
    };
    let bytes: Vec<u8> = match base64_decode(unescaped.as_str().as_bytes()) {
        Ok(bytes) => bytes,
        Err(e) => return Err(LiveError::because("解码虎牙 fm base64 失败: ", e.as_str())),
    };
    match string_from_utf8(bytes.as_slice()) {
        Ok(text) => Ok(cut_at(text.as_str(), '_')),
        Err(e) => Err(LiveError::because("虎牙 fm 参数不是 UTF-8: ", e.as_str())),
    }
}

/// A time in hexadecimal as seconds.
pub open spec fn hex_seconds(text: Seq<char>) -> Option<int> {
    parsed(text, 16)
}

/// The time that is signed: what the query says, or a day from now where that runs out within
/// twenty minutes or is no time. Nothing where it cannot be counted.
pub open spec fn signed_time(said: Seq<char>, now_secs: int) -> Option<Seq<char>> {
    let until = match hex_seconds(said) {
        Some(n) => n,
        None => 0,
    };
    if now_secs + 20 * 60 > u64::MAX {
        None
    } else if until >= now_secs + 20 * 60 {
        Some(said)
    } else if now_secs + 24 * 60 * 60 > u64::MAX {
        None
    } else {
        Some(hexadecimal((now_secs + 24 * 60 * 60) as nat))
    }
}

/// The time that is signed.
pub fn renew_time(said: &str, now_secs: u64) -> (time: Option<String>)
    ensures
        match signed_time(said@, now_secs as int) {
            Some(text) => time is Some && (time->0)@ == text,
            None => time is None,
        },
{
    if now_secs > u64::MAX - 20 * 60 {
        return None;
    }
    let until: u64 = match parse_number(chars_of(said).as_slice(), 16) {
        Some(n) => n,
        None => 0,
    };
    if until >= now_secs + 20 * 60 {
        return Some(said.to_owned());
    }
    if now_secs > u64::MAX - 24 * 60 * 60 {
        return None;
    }
    Some(hex_string(now_secs + 24 * 60 * 60))
}

/// The seconds of a time since the epoch.
pub open spec fn secs_of(nanos: u128) -> int {
    nanos as int / NANOS_PER_SEC as int
}

/// The milliseconds of a time since the epoch, in 64 bits.
pub open spec fn millis_of(nanos: u128) -> int {
    (nanos as int / NANOS_PER_MILLI as int) % 0x1_0000_0000_0000_0000
}

/// The fields of a signed query that do not depend on the kind of platform.
pub open spec fn common_fields(
    ws_secret: Seq<char>,
    ws_time: Seq<char>,
    seq_id: int,
    ctype: Seq<char>,
    fs: Seq<char>,
    fm: Seq<char>,
    platform_id: Seq<char>,
) -> Seq<char> {
    "wsSecret="@ + ws_secret + "&wsTime="@ + ws_time + "&seqid="@ + decimal(seq_id as nat)
        + "&ctype="@ + ctype + "&ver=1&fs="@ + fs + "&fm="@ + percent_encoded(encode_utf8(fm))
        + "&t="@ + platform_id
}

/// The digest of a request's number and platform.
pub open spec fn hash_of(seq_id: int, ctype: Seq<char>, platform_id: Seq<char>) -> Seq<char> {
    md5_of(encode_utf8(decimal(seq_id as nat) + "|"@ + ctype + "|"@ + platform_id))
}

/// The digest that proves a request.
pub open spec fn secret_of(
    prefix: Seq<char>,
    uid: int,
    stream_name: Seq<char>,
    hash: Seq<char>,
    ws_time: Seq<char>,
) -> Seq<char> {
    md5_of(
        encode_utf8(
            prefix + "_"@ + decimal(uid as nat) + "_"@ + stream_name + "_"@ + hash + "_"@ + ws_time,
        ),
    )
}

/// What comes of signing, before the last fields: the query so far, and the seconds that are
/// signed.
pub enum Signed {
    Query(Seq<char>, u64),
    Refused(Seq<char>),
    Overflow,
}

/// The platform of small screens has a form of its own.
pub open spec fn is_wap(platform_id: Seq<char>) -> bool {
    platform_id == "103"@
}

/// Signs a query for a platform, a user and a time. Without the parameter `fm` it cannot.
pub open spec fn signed_query(
    stream_name: Seq<char>,
    query: Seq<(Seq<char>, Seq<char>)>,
    ctype: Seq<char>,
    platform_id: Seq<char>,
    uid: u64,
    now: u128,
) -> Signed {
    let seq_id = uid + millis_of(now);
    if seq_id > u64::MAX {
        Signed::Overflow
    } else if lookup(query, "fm"@) is None {
        Signed::Refused("虎牙 fm 为空"@)
    } else {
        let fm = lookup(query, "fm"@)->0;
        match secret_prefix(fm) {
            Err(text) => Signed::Refused(text),
            Ok(prefix) => match lookup(query, "wsTime"@) {
                None => Signed::Refused("虎牙 wsTime 为空"@),
                Some(said) => match signed_time(said, secs_of(now)) {
                    None => Signed::Overflow,
                    Some(ws_time) => {
                        let calc_uid = if is_wap(platform_id) {
                            uid as int
                        } else {
                            turned(uid)
                        };
                        let ws_secret = secret_of(
                            prefix,
                            calc_uid,
                            stream_name,
                            hash_of(seq_id, ctype, platform_id),
                            ws_time,
                        );
                        let fs = match lookup(query, "fs"@) {
                            Some(fs) => fs,
                            None => "bgct"@,
                        };
                        Signed::Query(
                            common_fields(
                                ws_secret,
                                ws_time,
                                seq_id,
                                ctype,
                                fs,
                                fm,
                                platform_id,
                            ),
                            match hex_seconds(ws_time) {
                                Some(n) => n as u64,
                                None => secs_of(now) as u64,
                            },
                        )
                    },
                },
            },
        }
    }
}

/// The query with its last fields: the user, and on small screens a number for the device.
pub open spec fn with_user(
    query: Seq<char>,
    platform_id: Seq<char>,
    uid: u64,
    uuid: u32,
) -> Seq<char> {
    if is_wap(platform_id) {
        query + "&uid="@ + decimal(uid as nat) + "&uuid="@ + decimal(uuid as nat)
    } else {
        query + "&u="@ + decimal(turned(uid) as nat)
    }
}

/// `result` is what signing gives; `uuid_for` makes the number for the device out of the seconds
/// that are signed.
pub open spec fn is_signed<F: Fn(u64) -> u32>(
    result: Result<String, LiveError>,
    stream_name: Seq<char>,
    query: Seq<(Seq<char>, Seq<char>)>,
    ctype: Seq<char>,
    platform_id: Seq<char>,
    uid: u64,
    now: u128,
    uuid_for: F,
) -> bool {
    match signed_query(stream_name, query, ctype, platform_id, uid, now) {
        Signed::Overflow => result == Err::<String, LiveError>(LiveError::Overflow),
        Signed::Refused(text) => result is Err && tells(result->Err_0, text),
        Signed::Query(head, seconds) => {
            &&& result is Ok
            &&& is_wap(platform_id) ==> exists|uuid: u32| #[trigger]
                call_ensures(uuid_for, (seconds,), uuid) && result->Ok_0@ == with_user(
                    head,
                    platform_id,
                    uid,
                    uuid,
                )
            &&& !is_wap(platform_id) ==> result->Ok_0@ == with_user(head, platform_id, uid, 0)
        },
    }
}

fn push_field(text: &mut String, name: &str, value: &str)
    ensures
        final(text)@ == old(text)@ + name@ + value@,
{
    text.append(name);
    text.append(value);
}

fn request_hash(seq_id: u64, ctype: &str, platform_id: &str) -> (hash: String)
    ensures
        hash@ == hash_of(seq_id as int, ctype@, platform_id@),
{
    let mut text: String = decimal_string(seq_id);
    push_field(&mut text, "|", ctype);
    push_field(&mut text, "|", platform_id);
    md5_hex(text.as_str())
}

fn request_secret(
    prefix: &str,
    uid: u64,
    stream_name: &str,
    hash: &str,
    ws_time: &str,
) -> (secret: String)
    ensures
        secret@ == secret_of(prefix@, uid as int, stream_name@, hash@, ws_time@),
{
    let mut text: String = prefix.to_owned();
    text.append("_");
    push_decimal(&mut text, uid);
    push_field(&mut text, "_", stream_name);
    push_field(&mut text, "_", hash);
    push_field(&mut text, "_", ws_time);
    md5_hex(text.as_str())
}

fn write_common_fields(
    ws_secret: &str,
    ws_time: &str,
    seq_id: u64,
    ctype: &str,
    fs: &str,
    fm: &str,
    platform_id: &str,
) -> (text: String)
    ensures
        text@ == common_fields(
            ws_secret@,
            ws_time@,
            seq_id as int,
            ctype@,
            fs@,
            fm@,
            platform_id@,
        ),
{
    let mut text: String = "wsSecret=".to_owned();
    push_field(&mut text, ws_secret, "&wsTime=");
    push_field(&mut text, ws_time, "&seqid=");
    push_decimal(&mut text, seq_id);
    push_field(&mut text, "&ctype=", ctype);
    push_field(&mut text, "&ver=1&fs=", fs);
    push_field(&mut text, "&fm=", percent_encode(fm).as_str());
    push_field(&mut text, "&t=", platform_id);
    text
}

fn add_user(query: String, platform_id: &str, uid: u64, uuid: u32) -> (text: String)
    ensures
        text@ == with_user(query@, platform_id@, uid, uuid),
{
    let mut text: String = query;
    if same_text(platform_id, "103") {
        text.append("&uid=");
        push_decimal(&mut text, uid);
        text.append("&uuid=");
        push_decimal(&mut text, uuid as u64);
    } else {
        text.append("&u=");
        push_decimal(&mut text, rotl64(uid));
    }
    text
}

/// Signs a query for a platform, a user and a time. Without the parameter `fm` it cannot.
pub fn sign_query<F: Fn(u64) -> u32>(
    stream_name: &str,
    query: &Vec<(String, String)>,
    ctype: &str,
    platform_id: &str,
    uid: u64,
    now: u128,
    uuid_for: F,
) -> (result: Result<String, LiveError>)
    requires
        now <= MAX_DURATION_NANOS,
        forall|seconds: u64| call_requires(uuid_for, (seconds,)),
    ensures
        is_signed(
            result,
            stream_name@,
            pairs_of(query@),
            ctype@,
            platform_id@,
            uid,
            now,
            uuid_for,
        ),
{
    let wap: bool = same_text(platform_id, "103");
    let now_secs: u64 = (now / NANOS_PER_SEC) as u64;
    let now_millis: u64 = ((now / NANOS_PER_MILLI) % 0x1_0000_0000_0000_0000) as u64;
    if uid > u64::MAX - now_millis {
        return Err(LiveError::Overflow);
    }
    let seq_id: u64 = uid + now_millis;
    let secret_hash: String = request_hash(seq_id, ctype, platform_id);
    let calc_uid: u64 = if wap {
        uid
    } else {
        rotl64(uid)
    };
    let fm: &str = match find_value(query, "fm") {
        Some(fm) => fm,
        None => return Err(LiveError::custom("虎牙 fm 为空")),
    };
    let prefix: String = match read_secret_prefix(fm) {
        Ok(prefix) => prefix,
        Err(e) => return Err(e),
    };
    let said: &str = match find_value(query, "wsTime") {
        Some(said) => said,
        None => return Err(LiveError::custom("虎牙 wsTime 为空")),
    };
    let ws_time: String = match renew_time(said, now_secs) {
        Some(time) => time,
        None => return Err(LiveError::Overflow),
    };
    let ws_secret: String = request_secret(
        prefix.as_str(),
        calc_uid,
        stream_name,
        secret_hash.as_str(),
        ws_time.as_str(),
    );
    let fs: &str = match find_value(query, "fs") {
        Some(fs) => fs,
        None => "bgct",
    };
    let text: String = write_common_fields(
        ws_secret.as_str(),
        ws_time.as_str(),
        seq_id,
        ctype,
        fs,
        fm,
        platform_id,
    );
    if wap {
        let seconds: u64 = match parse_number(chars_of(ws_time.as_str()).as_slice(), 16) {
            Some(n) => n,
            None => now_secs,
        };
        let uuid: u32 = uuid_for(seconds);
        let done: String = add_user(text, platform_id, uid, uuid);
        let ghost signed = signed_query(
            stream_name@,
            pairs_of(query@),
            ctype@,
            platform_id@,
            uid,
            now,
        );
        assert(call_ensures(uuid_for, (signed->Query_1,), uuid));
        Ok(done)
    } else {
        Ok(add_user(text, platform_id, uid, 0))
    }
}

/// The user that a query is signed for: the one given, unless it is missing or zero.
pub open spec fn fits_user(uid: Option<u64>, chosen: u64) -> bool {
    match uid {
        Some(value) if value > 0 => chosen == value,
        _ => is_random_uid(chosen),
    }
}

/// The present time could not be told.
pub open spec fn clock_refused(result: Result<String, LiveError>) -> bool {
    exists|cause: Seq<char>| result is Err && #[trigger] tells(
        result->Err_0,
        "获取系统时间失败: "@ + cause,
    )
}

/// `result` is a query that was signed for a stream: as it was where it has no parameter `fm`, else
/// signed for the platform that it names and the user that is given, or for drawn ones.
pub open spec fn is_built<F: Fn(u64) -> u32>(
    result: Result<String, LiveError>,
    stream_name: Seq<char>,
    anti_code: Seq<char>,
    uid: Option<u64>,
    uuid_for: F,
) -> bool {
    let query = query_pairs(encode_utf8(anti_code));
    if lookup(query, "fm"@) is None {
        result is Ok && result->Ok_0@ == anti_code
    } else {
        clock_refused(result) || exists|
            ctype: Seq<char>,
            platform_id: Seq<char>,
            chosen: u64,
            now: u128,
        |
            #![trigger is_signed(result, stream_name, query, ctype, platform_id, chosen, now, uuid_for)]
            fits_query(query, ctype, platform_id) && fits_user(uid, chosen) && now
                <= MAX_DURATION_NANOS && is_signed(
                result,
                stream_name,
                query,
                ctype,
                platform_id,
                chosen,
                now,
                uuid_for,
            )
    }
}

/// Signs a query for a stream. A query without the parameter `fm` is valid as it is. A platform
/// that it does not name and a user that is not known are drawn; `uuid_for` makes the number for
/// a device with a small screen out of the seconds that are signed.
pub fn build_anticode<F: Fn(u64) -> u32>(
    stream_name: &str,
    anti_code: &str,
    uid: Option<u64>,
    uuid_for: F,
) -> (result: Result<String, LiveError>)
    requires
        forall|seconds: u64| call_requires(uuid_for, (seconds,)),
    ensures
        is_built(result, stream_name@, anti_code@, uid, uuid_for),
{
    let query: Vec<(String, String)> = match read_query(anti_code) {
        Ok(query) => query,
        Err(e) => return Err(LiveError::because("解析虎牙防盗链参数失败: ", e.as_str())),
    };
    if find_value(&query, "fm").is_none() {
        return Ok(anti_code.to_owned());
    }
    let (ctype, platform_id) = resolve_platform(&query);
    let now: u128 = match nanos_since_epoch() {
        Ok(now) => now,
        Err(e) => {
            let refused = Err(LiveError::because("获取系统时间失败: ", e.as_str()));
            assert(tells(refused->Err_0, "获取系统时间失败: "@ + e@));
            return refused;
        },
    };
    let chosen: u64 = match uid {
        Some(value) => if value > 0 {
            value
        } else {
            generate_random_uid()
        },
        None => generate_random_uid(),
    };
    sign_query(
        stream_name,
        &query,
        ctype.as_str(),
        platform_id.as_str(),
        chosen,
        now,
        uuid_for,
    )
}

} // verus!
