//! What holds of what pages and the API say of a room.

use crate::huya::{answer_value, asked_for, html_decoded, is_room_address, is_source_of, is_stream_of, profile_of, replay_title, room_gone, room_in, says_of_answer, says_of_page, says_of_room, secured, text_or_error, wup_asked, DanmakuSource, HuyaLive, HuyaOptions, HuyaProtocol, HuyaRoomProfile, LiveStream};
use crate::json::{entry_from, field, i64_field, items_of, text_field, u64_field, values_of, JsonData};
use crate::live::{tells, LiveError};
use crate::outside::uppercase;
use crate::outside_json::{json_array_read, json_read};
use crate::outside_web::pattern_found;
use crate::page_json::{stream_value, text_after};
use crate::text::{contains, find, find_is_first, occurs_at, pairs_of, replaced, up_to};
use crate::text_laws::{beginnings_and_ends, places_are_filled, the_first_place_is_found, up_to_stops_at_the_mark};
use vstd::prelude::*;

verus! {

// ---------------------------------------------------------------------------
// Fields
// ---------------------------------------------------------------------------

proof fn first_entry(entries: Seq<(Seq<char>, JsonData)>, key: Seq<char>, i: int, k: int)
    requires
        0 <= i <= k <= entries.len(),
        forall|j: int| i <= j < k ==> (#[trigger] entries[j]).0 != key,
    ensures
        k < entries.len() && entries[k].0 == key ==> entry_from(entries, key, i) == Some(
            entries[k].1,
        ),
        k == entries.len() ==> entry_from(entries, key, i) is None,
    decreases k - i,
{
    if i < k {
        assert(entries[i].0 != key);
        first_entry(entries, key, i + 1, k);
    }
}

/// A field of an object is the first entry that has its key. An object without the key, and any
/// other value, has no such field.
pub proof fn fields_are_found_by_key(
    entries: Seq<(Seq<char>, JsonData)>,
    key: Seq<char>,
    k: int,
    other: JsonData,
)
    requires
        0 <= k < entries.len(),
        entries[k].0 == key,
        forall|j: int| 0 <= j < k ==> (#[trigger] entries[j]).0 != key,
    ensures
        field(JsonData::Object(entries), key) == Some(entries[k].1),
        !(other is Object) ==> field(other, key) is None,
{
    first_entry(entries, key, 0, k);
}

/// A key that no entry has is no field.
pub proof fn missing_keys_are_no_fields(entries: Seq<(Seq<char>, JsonData)>, key: Seq<char>)
    requires
        forall|j: int| 0 <= j < entries.len() ==> (#[trigger] entries[j]).0 != key,
    ensures
        field(JsonData::Object(entries), key) is None,
{
    first_entry(entries, key, 0, entries.len() as int);
}

/// A field is read as what it holds. What is missing, or of another kind, is read as the empty
/// text, as zero, or as no items; where a text is needed it is an error that names the field.
pub proof fn fields_are_read_by_kind(value: JsonData, key: Seq<char>)
    ensures
        match field(value, key) {
            Some(JsonData::Text(text)) => {
                &&& text_field(value, key) == text
                &&& text_or_error(value, key) == Ok::<Seq<char>, Seq<char>>(text)
                &&& u64_field(value, key) == 0
                &&& i64_field(value, key) == 0
                &&& items_of(value, key).len() == 0
            },
            Some(JsonData::PosInt(n)) => {
                &&& u64_field(value, key) == n
                &&& i64_field(value, key) == if n <= i64::MAX {
                    n as int
                } else {
                    0
                }
                &&& text_field(value, key).len() == 0
                &&& text_or_error(value, key) == Err::<Seq<char>, Seq<char>>(
                    "虎牙字段 "@ + key + " 为空"@,
                )
            },
            Some(JsonData::NegInt(n)) => {
                &&& u64_field(value, key) == 0
                &&& i64_field(value, key) == n
                &&& text_field(value, key).len() == 0
            },
            Some(JsonData::Array(items)) => {
                &&& items_of(value, key) == items
                &&& text_field(value, key).len() == 0
                &&& u64_field(value, key) == 0
            },
            None => {
                &&& text_field(value, key).len() == 0
                &&& u64_field(value, key) == 0
                &&& i64_field(value, key) == 0
                &&& items_of(value, key).len() == 0
                &&& text_or_error(value, key) == Err::<Seq<char>, Seq<char>>(
                    "虎牙字段 "@ + key + " 为空"@,
                )
            },
            _ => text_field(value, key).len() == 0 && items_of(value, key).len() == 0,
        },
{
}

// ---------------------------------------------------------------------------
// Text of pages
// ---------------------------------------------------------------------------

/// A text that holds no ampersand holds no entity.
proof fn nothing_to_fill(text: Seq<char>, entity: Seq<char>, filling: Seq<char>)
    requires
        entity.len() > 0,
        entity[0] == '&',
        !text.contains('&'),
    ensures
        replaced(text, entity, filling) == text,
{
    places_are_filled(text, entity, filling);
    if contains(text, entity) {
        find_is_first(text, entity, 0);
        let k = find(text, entity, 0)->0;
        assert(text.subrange(k, k + entity.len())[0] == text[k]);
        assert(text.contains('&'));
    }
}

/// An entity between texts without ampersands is filled alone.
proof fn one_place_is_filled(
    front: Seq<char>,
    entity: Seq<char>,
    rest: Seq<char>,
    filling: Seq<char>,
)
    requires
        entity.len() > 0,
        entity[0] == '&',
        !front.contains('&'),
        !rest.contains('&'),
    ensures
        replaced(front + entity + rest, entity, filling) == front + filling + rest,
{
    let text = front + entity + rest;
    let n = front.len() as int;
    assert(text.subrange(n, n + entity.len()) =~= entity);
    assert(occurs_at(text, entity, n));
    find_is_first(text, entity, 0);
    let k = find(text, entity, 0)->0;
    assert(k == n) by {
        if k < n {
            assert(text.subrange(k, k + entity.len())[0] == text[k]);
            assert(front[k] == '&');
        }
    }
    assert(text.take(n) =~= front);
    assert(text.skip(n + entity.len()) =~= rest);
    nothing_to_fill(rest, entity, filling);
}

/// An entity stays where another one is sought.
proof fn other_places_stay(
    front: Seq<char>,
    entity: Seq<char>,
    rest: Seq<char>,
    other: Seq<char>,
    filling: Seq<char>,
    d: int,
)
    requires
        entity.len() > 0,
        entity[0] == '&',
        other.len() > 0,
        other[0] == '&',
        !front.contains('&'),
        !rest.contains('&'),
        forall|i: int| 0 < i < entity.len() ==> entity[i] != '&',
        0 < d < entity.len(),
        d < other.len(),
        entity[d] != other[d],
    ensures
        replaced(front + entity + rest, other, filling) == front + entity + rest,
{
    let text = front + entity + rest;
    let n = front.len() as int;
    places_are_filled(text, other, filling);
    if contains(text, other) {
        find_is_first(text, other, 0);
        let k = find(text, other, 0)->0;
        let there = text.subrange(k, k + other.len());
        assert(there[0] == text[k]);
        if k < n {
            assert(front[k] == '&');
        } else if k == n {
            assert(there[d] == text[n + d]);
            assert(text[n + d] == entity[d]);
        } else if k < n + entity.len() {
            assert(text[k] == entity[k - n]);
        } else {
            assert(text[k] == rest[k - n - entity.len()]);
            assert(rest.contains('&'));
        }
    }
}

/// The entities of quotes, of the angle brackets and of the ampersand stand for their characters;
/// a text without ampersands stays as it is.
pub proof fn entities_stand_for_characters(front: Seq<char>, rest: Seq<char>)
    requires
        !front.contains('&'),
        !rest.contains('&'),
        !front.contains('"') && !front.contains('<') && !front.contains('>'),
    ensures
        html_decoded(front) == front,
        html_decoded(front + "&quot;"@ + rest) == front + seq!['"'] + rest,
        html_decoded(front + "&#34;"@ + rest) == front + seq!['"'] + rest,
        html_decoded(front + "&#x22;"@ + rest) == front + seq!['"'] + rest,
        html_decoded(front + "&lt;"@ + rest) == front + seq!['<'] + rest,
        html_decoded(front + "&gt;"@ + rest) == front + seq!['>'] + rest,
{
    reveal_strlit("&quot;");
    reveal_strlit("&#34;");
    reveal_strlit("&#x22;");
    reveal_strlit("&amp;");
    reveal_strlit("&lt;");
    reveal_strlit("&gt;");
    reveal_strlit("\"");
    reveal_strlit("<");
    reveal_strlit(">");
    reveal_strlit("&");
    assert("\""@ =~= seq!['"']);
    assert("<"@ =~= seq!['<']);
    assert(">"@ =~= seq!['>']);
    plain_text_stays(front);
    let a = "&quot;"@;
    let b = "&#34;"@;
    let c = "&#x22;"@;
    let d = "&amp;"@;
    let e = "&lt;"@;
    let f = "&gt;"@;
    let quoted = front + seq!['"'] + rest;
    no_ampersand(front, '"', rest);
    no_ampersand(front, '<', rest);
    no_ampersand(front, '>', rest);
    one_place_is_filled(front, a, rest, "\""@);
    plain_text_stays(quoted);
    nothing_to_fill(quoted, b, "\""@);
    nothing_to_fill(quoted, c, "\""@);
    nothing_to_fill(quoted, d, "&"@);
    nothing_to_fill(quoted, e, "<"@);
    nothing_to_fill(quoted, f, ">"@);
    other_places_stay(front, b, rest, a, "\""@, 1);
    one_place_is_filled(front, b, rest, "\""@);
    other_places_stay(front, c, rest, a, "\""@, 1);
    other_places_stay(front, c, rest, b, "\""@, 2);
    one_place_is_filled(front, c, rest, "\""@);
    let less = front + seq!['<'] + rest;
    other_places_stay(front, e, rest, a, "\""@, 1);
    other_places_stay(front, e, rest, b, "\""@, 1);
    other_places_stay(front, e, rest, c, "\""@, 1);
    other_places_stay(front, e, rest, d, "&"@, 1);
    one_place_is_filled(front, e, rest, "<"@);
    nothing_to_fill(less, f, ">"@);
    other_places_stay(front, f, rest, a, "\""@, 1);
    other_places_stay(front, f, rest, b, "\""@, 1);
    other_places_stay(front, f, rest, c, "\""@, 1);
    other_places_stay(front, f, rest, d, "&"@, 1);
    other_places_stay(front, f, rest, e, "<"@, 1);
    one_place_is_filled(front, f, rest, ">"@);
}

/// The entity of the ampersand stands for it, and is read once: what it makes with the text behind
/// it is an entity only if it is an angle bracket.
pub proof fn ampersands_are_read_once(front: Seq<char>, rest: Seq<char>)
    requires
        !front.contains('&'),
        !rest.contains('&'),
        !occurs_at(rest, "lt;"@, 0),
        !occurs_at(rest, "gt;"@, 0),
    ensures
        html_decoded(front + "&amp;"@ + rest) == front + seq!['&'] + rest,
{
    reveal_strlit("&quot;");
    reveal_strlit("&#34;");
    reveal_strlit("&#x22;");
    reveal_strlit("&amp;");
    reveal_strlit("&lt;");
    reveal_strlit("&gt;");
    reveal_strlit("&");
    reveal_strlit("lt;");
    reveal_strlit("gt;");
    assert("&"@ =~= seq!['&']);
    let d = "&amp;"@;
    other_places_stay(front, d, rest, "&quot;"@, "\""@, 1);
    other_places_stay(front, d, rest, "&#34;"@, "\""@, 1);
    other_places_stay(front, d, rest, "&#x22;"@, "\""@, 1);
    one_place_is_filled(front, d, rest, "&"@);
    assert("&lt;"@ =~= seq!['&'] + "lt;"@);
    assert("&gt;"@ =~= seq!['&'] + "gt;"@);
    lone_ampersand_stays(front, rest, "&lt;"@, "lt;"@, "<"@);
    lone_ampersand_stays(front, rest, "&gt;"@, "gt;"@, ">"@);
}

proof fn lone_ampersand_stays(
    front: Seq<char>,
    rest: Seq<char>,
    entity: Seq<char>,
    tail: Seq<char>,
    filling: Seq<char>,
)
    requires
        entity == seq!['&'] + tail,
        !front.contains('&'),
        !rest.contains('&'),
        !occurs_at(rest, tail, 0),
    ensures
        replaced(front + seq!['&'] + rest, entity, filling) == front + seq!['&'] + rest,
{
    let text = front + seq!['&'] + rest;
    let n = front.len() as int;
    places_are_filled(text, entity, filling);
    if contains(text, entity) {
        find_is_first(text, entity, 0);
        let k = find(text, entity, 0)->0;
        let there = text.subrange(k, k + entity.len());
        assert(there[0] == text[k]);
        if k < n {
            assert(front[k] == '&');
        } else if k > n {
            assert(rest[k - n - 1] == '&');
        } else {
            assert(rest.subrange(0, tail.len() as int) =~= there.skip(1));
            assert(there.skip(1) =~= tail);
            assert(occurs_at(rest, tail, 0));
        }
    }
}

proof fn no_ampersand(front: Seq<char>, c: char, rest: Seq<char>)
    requires
        !front.contains('&'),
        !rest.contains('&'),
        c != '&',
    ensures
        !(front + seq![c] + rest).contains('&'),
{
    let text = front + seq![c] + rest;
    assert forall|i: int| 0 <= i < text.len() implies text[i] != '&' by {
        if i < front.len() {
            assert(front[i] == text[i]);
        } else if i > front.len() {
            assert(rest[i - front.len() - 1] == text[i]);
        }
    }
}

proof fn plain_text_stays(text: Seq<char>)
    requires
        !text.contains('&'),
    ensures
        html_decoded(text) == text,
{
    reveal_strlit("&quot;");
    reveal_strlit("&#34;");
    reveal_strlit("&#x22;");
    reveal_strlit("&amp;");
    reveal_strlit("&lt;");
    reveal_strlit("&gt;");
    nothing_to_fill(text, "&quot;"@, "\""@);
    nothing_to_fill(text, "&#34;"@, "\""@);
    nothing_to_fill(text, "&#x22;"@, "\""@);
    nothing_to_fill(text, "&amp;"@, "&"@);
    nothing_to_fill(text, "&lt;"@, "<"@);
    nothing_to_fill(text, "&gt;"@, ">"@);
}

/// An address that begins with `http` is fetched over `https`; one without it stays as it is.
pub proof fn addresses_are_secured(rest: Seq<char>)
    requires
        !contains(rest, "http://"@),
    ensures
        secured(rest) == rest,
        secured("http://"@ + rest) == "https://"@ + rest,
{
    reveal_strlit("http://");
    let mark = "http://"@;
    let text = mark + rest;
    assert(text.subrange(0, mark.len() as int) =~= mark);
    the_first_place_is_found(text, mark, 0);
    assert(text.take(0) + "https://"@ =~= "https://"@);
    assert(text.skip(mark.len() as int) =~= rest);
    places_are_filled(rest, mark, "https://"@);
}

/// A title that begins or ends with either word for a replay is that of a recording, and no other
/// is.
pub proof fn replays_are_told_by_their_title(title: Seq<char>, front: Seq<char>, rest: Seq<char>)
    ensures
        replay_title("回放"@ + rest),
        replay_title("重播"@ + rest),
        replay_title(front + "回放"@),
        replay_title(front + "重播"@),
        replay_title(title) ==> exists|other: Seq<char>|
            title == "回放"@ + other || title == "重播"@ + other || title == #[trigger] (other
                + "回放"@) || title == other + "重播"@,
{
    beginnings_and_ends(front, "回放"@, rest);
    beginnings_and_ends(front, "重播"@, rest);
    beginnings_and_ends(title, "回放"@, rest);
    beginnings_and_ends(title, "重播"@, rest);
    if replay_title(title) {
        let a = title.skip("回放"@.len() as int);
        let b = title.skip("重播"@.len() as int);
        let c = title.take(title.len() - "回放"@.len());
        let d = title.take(title.len() - "重播"@.len());
        assert((a + "回放"@).len() >= 0 && (b + "回放"@).len() >= 0);
        assert((c + "回放"@).len() >= 0 && (d + "回放"@).len() >= 0);
    }
}

/// The room of an address is what stands behind the name of the site, up to a question mark.
pub proof fn rooms_stand_behind_the_site(front: Seq<char>, room: Seq<char>, query: Seq<char>)
    requires
        find(front + "huya.com/"@ + room + query, "huya.com/"@, 0) == Some(front.len() as int),
        !contains(room + query, "huya.com/"@),
        !room.contains('?'),
        query.len() > 0 ==> query[0] == '?',
    ensures
        room_in(front + "huya.com/"@ + room + query) == room,
{
    let url = front + "huya.com/"@ + room + query;
    let rest = url.skip(front.len() + "huya.com/"@.len() as int);
    assert(rest =~= room + query);
    up_to_stops_at_the_mark(rest, '?');
    let found = up_to(rest, '?');
    let m = found.len() as int;
    let n = room.len() as int;
    if m < n {
        assert(rest[m] == room[m]);
        assert(room.contains('?'));
    }
    if m > n {
        assert(rest[n] == query[0]);
        assert(found[n] == rest.take(m)[n]);
    }
    assert(found =~= room);
}

/// An address without the name of the site names no room.
pub proof fn other_sites_have_no_rooms(url: Seq<char>)
    requires
        !contains(url, "huya.com/"@),
    ensures
        room_in(url).len() == 0,
{
}

// ---------------------------------------------------------------------------
// What is known of a room
// ---------------------------------------------------------------------------

/// A profile tells the title, the cover, fetched over `https`, and the highest bit rate of the
/// room.
pub proof fn profiles_tell_of_the_room(
    profile: HuyaRoomProfile,
    info: JsonData,
    bitrates: Seq<JsonData>,
    streams: Seq<JsonData>,
)
    requires
        profile_of(profile, info, bitrates, streams),
    ensures
        profile.title@ == text_field(info, "introduction"@),
        profile.cover@ == secured(text_field(info, "screenshot"@)),
        profile.max_bitrate as int == u64_field(info, "bitRate"@) as int % 0x1_0000_0000,
        values_of(profile.bitrate_info@) == bitrates,
        values_of(profile.stream_info@) == streams,
{
}

/// The page of a room tells of it exactly where the room is on and lists bit rates and streams.
/// Without its live data it is in error.
pub proof fn pages_tell_of_rooms_that_are_on(
    profile: Result<Option<HuyaRoomProfile>, LiveError>,
    room_data: JsonData,
    stream: JsonData,
    info: JsonData,
)
    requires
        says_of_room(profile, room_data, stream),
    ensures
        ({
            let on = field(room_data, "state"@) == Some(JsonData::Text("ON"@));
            let rates = items_of(stream, "vMultiStreamInfo"@);
            let list = items_of(stream, "data"@);
            let streams = items_of(list[0], "gameStreamInfoList"@);
            &&& !on || rates.len() == 0 ==> (profile matches Ok(None))
            &&& on && rates.len() > 0 && list.len() == 0 ==> profile is Err && tells(
                profile->Err_0,
                "虎牙流数据为空"@,
            )
            &&& on && rates.len() > 0 && list.len() > 0 && field(list[0], "gameLiveInfo"@) is None
                ==> profile is Err && tells(profile->Err_0, "虎牙直播信息为空"@)
            &&& on && rates.len() > 0 && list.len() > 0 && field(list[0], "gameLiveInfo"@) == Some(
                info,
            ) && streams.len() == 0 ==> (profile matches Ok(None))
            &&& on && rates.len() > 0 && list.len() > 0 && field(list[0], "gameLiveInfo"@) == Some(
                info,
            ) && streams.len() > 0 ==> (profile matches Ok(Some(found)) && profile_of(
                found,
                info,
                rates,
                streams,
            ))
        }),
{
    reveal_strlit("ON");
    assert("ON"@.len() == 2);
}

/// The answer of the API tells of a room exactly where it is on and lists bit rates, which are
/// JSON within a text, and streams.
pub proof fn answers_tell_of_rooms_that_are_on(
    profile: Result<Option<HuyaRoomProfile>, LiveError>,
    root: JsonData,
    data: JsonData,
    info: JsonData,
    stream: JsonData,
    raw: Seq<char>,
    rates: Seq<JsonData>,
)
    requires
        says_of_answer(profile, root),
        field(root, "data"@) == Some(data),
        field(data, "liveData"@) == Some(info),
        field(data, "stream"@) == Some(stream),
        field(info, "bitRateInfo"@) == Some(JsonData::Text(raw)),
        raw.len() > 0,
    ensures
        ({
            let on = field(data, "liveStatus"@) == Some(JsonData::Text("ON"@));
            let streams = items_of(stream, "baseSteamInfoList"@);
            &&& !on ==> (profile matches Ok(None))
            &&& on && json_array_read(raw) is Err ==> profile is Err && tells(
                profile->Err_0,
                "解析虎牙码率信息失败: "@ + json_array_read(raw)->Err_0,
            )
            &&& on && json_array_read(raw) == Ok::<Seq<JsonData>, Seq<char>>(rates) && streams.len()
                == 0 ==> (profile matches Ok(None))
            &&& on && json_array_read(raw) == Ok::<Seq<JsonData>, Seq<char>>(rates) && streams.len()
                > 0 ==> (profile matches Ok(Some(found)) && profile_of(found, info, rates, streams))
        }),
{
    reveal_strlit("ON");
    assert("ON"@.len() == 2);
}

/// An answer without data is in error; one without bit rates tells of no room.
pub proof fn answers_need_data(
    profile: Result<Option<HuyaRoomProfile>, LiveError>,
    root: JsonData,
    data: JsonData,
)
    requires
        says_of_answer(profile, root),
    ensures
        field(root, "data"@) is None ==> profile is Err && tells(
            profile->Err_0,
            "虎牙移动端 data 为空"@,
        ),
        field(root, "data"@) == Some(data) && field(data, "liveData"@) is None
            ==> (profile matches Ok(None)),
{
}

/// An answer is read once its entities are in their places, and counts only under the status of
/// success; else its message tells why, as far as it has one.
pub proof fn answers_count_under_success(text: Seq<char>, root: JsonData, message: Seq<char>)
    requires
        json_read(html_decoded(text)) == Ok::<JsonData, Seq<char>>(root),
    ensures
        i64_field(root, "status"@) == 200 ==> answer_value(text) == Ok::<JsonData, Seq<char>>(root),
        i64_field(root, "status"@) != 200 && field(root, "message"@) == Some(
            JsonData::Text(message),
        ) ==> answer_value(text) == Err::<JsonData, Seq<char>>(
            "虎牙移动端接口错误: "@ + message,
        ),
        i64_field(root, "status"@) != 200 && field(root, "message"@) is None ==> answer_value(text)
            == Err::<JsonData, Seq<char>>("虎牙移动端接口错误: "@ + "未知错误"@),
{
}

// ---------------------------------------------------------------------------
// What is asked for
// ---------------------------------------------------------------------------

/// Tokens come from the WUP service where it is asked for, unless pictures are asked of the
/// mobile API.
pub proof fn pictures_of_the_mobile_api_keep_their_token(live: HuyaLive)
    ensures
        live.huya_mobile_api && live.huya_imgplus ==> !live.uses_wup(),
        !(live.huya_mobile_api && live.huya_imgplus) ==> live.uses_wup() == live.huya_use_wup,
{
}

/// A stream is asked for by its name as the room gives it, where pictures are asked for; else
/// without the mark of the pictures.
pub proof fn the_mark_of_pictures_is_left_out(live: HuyaLive, front: Seq<char>, rest: Seq<char>)
    requires
        !contains(front, "-imgplus"@),
        find(front + "-imgplus"@ + rest, "-imgplus"@, 0) == Some(front.len() as int),
        !contains(rest, "-imgplus"@),
    ensures
        live.huya_imgplus ==> live.stream_name(front + "-imgplus"@ + rest) == front + "-imgplus"@
            + rest,
        !live.huya_imgplus ==> live.stream_name(front + "-imgplus"@ + rest) == front + rest,
        live.stream_name(front) == front,
{
    reveal_strlit("-imgplus");
    reveal_strlit("");
    let mark = "-imgplus"@;
    let text = front + mark + rest;
    let n = front.len() as int;
    assert(text.take(n) =~= front);
    assert(text.skip(n + mark.len()) =~= rest);
    places_are_filled(rest, mark, ""@);
    places_are_filled(front, mark, ""@);
    assert(replaced(text, mark, ""@) =~= front + rest);
}

/// Comments are asked of the room by its address alone.
pub proof fn comments_are_asked_by_address(source: DanmakuSource, live: HuyaLive)
    requires
        is_source_of(source, live),
    ensures
        source.platform@ == "huya"@,
        source.url@ == live.url@,
        source.room_id is None && source.cookie is None && source.movie_id is None
            && source.password is None,
        !source.raw && !source.detail && source.extra@.len() == 0,
{
}

/// A setting of HLS asks for HLS, and any other for FLV; each has its own extension.
pub proof fn settings_name_the_protocol(value: Seq<char>)
    ensures
        value == "Hls"@ ==> HuyaProtocol::named(value) == HuyaProtocol::Hls,
        value != "Hls"@ ==> HuyaProtocol::named(value) == HuyaProtocol::Flv,
        HuyaProtocol::Flv.extension_text() == "flv"@,
        HuyaProtocol::Hls.extension_text() == "m3u8"@,
{
}

/// The service is asked for tokens only where it is wanted, and not for the pictures of the mobile
/// API.
pub proof fn the_service_is_asked_where_wanted(mobile_api: bool, imgplus: bool)
    ensures
        !wup_asked(mobile_api, imgplus, false),
        !wup_asked(true, true, true),
        wup_asked(false, imgplus, true),
        wup_asked(mobile_api, false, true),
{
}

/// A page is refused where it holds either of the two sentences that a room is not there.
pub proof fn pages_of_missing_rooms(front: Seq<char>, rest: Seq<char>, page: Seq<char>)
    ensures
        room_gone(front + "找不到这个主播"@ + rest),
        room_gone(front + "该主播涉嫌违规，正在整改中"@ + rest),
        !contains(page, "找不到这个主播"@) && !contains(page, "该主播涉嫌违规，正在整改中"@)
            ==> !room_gone(page),
{
    let n = front.len() as int;
    let a = front + "找不到这个主播"@ + rest;
    let b = front + "该主播涉嫌违规，正在整改中"@ + rest;
    assert(a.subrange(n, n + "找不到这个主播"@.len()) =~= "找不到这个主播"@);
    the_first_place_is_found(a, "找不到这个主播"@, n);
    assert(b.subrange(n, n + "该主播涉嫌违规，正在整改中"@.len())
        =~= "该主播涉嫌违规，正在整改中"@);
    the_first_place_is_found(b, "该主播涉嫌违规，正在整改中"@, n);
}

/// Every option is kept as it was given, but for the network, which is kept in capitals.
pub proof fn options_are_kept(live: HuyaLive, url: String, name: String, options: HuyaOptions)
    requires
        asked_for(live, url, name, options),
    ensures
        live.url@ == url@ && live.name@ == name@,
        live.huya_cdn@ == uppercase(options.cdn@),
        live.huya_max_ratio == options.max_ratio,
        (live.huya_protocol == HuyaProtocol::Hls) == (options.protocol@ == "Hls"@),
        live.huya_imgplus == options.imgplus,
        live.huya_codec@ == options.codec@,
        live.huya_danmaku == options.danmaku,
        live.huya_mobile_api == options.mobile_api,
        live.huya_use_wup == options.use_wup,
{
}

/// A stream tells the room, its title, its cover and the address; its extension is what the
/// address tells, else that of the protocol. It is fetched under the agent of the service where
/// its token comes from there, else without a header of its own.
pub proof fn streams_tell_of_the_room(
    stream: LiveStream,
    live: HuyaLive,
    profile: HuyaRoomProfile,
    url: Seq<char>,
    extension: Option<Seq<char>>,
)
    requires
        is_stream_of(stream, live, profile, url, extension),
    ensures
        stream.name@ == live.name@ && stream.url@ == live.url@,
        stream.title@ == profile.title@ && stream.live_cover_url@ == profile.cover@,
        stream.raw_stream_url@ == url,
        stream.platform@ == "huya"@,
        extension matches Some(text) ==> stream.suffix@ == text,
        extension is None ==> stream.suffix@ == if live.huya_protocol == HuyaProtocol::Flv {
            "flv"@
        } else {
            "m3u8"@
        },
        live.huya_use_wup && !(live.huya_mobile_api && live.huya_imgplus)
            ==> stream.stream_headers@.len() == 1 && stream.stream_headers@[0].0@ == "User-Agent"@
            && stream.stream_headers@[0].1@
            == "HYSDK(Windows,30000002)_APP(pc_exe&7030003&official)_SDK(trans&2.29.0.5493)"@,
        !live.huya_use_wup || live.huya_mobile_api && live.huya_imgplus
            ==> stream.stream_headers@.len() == 0,
        stream.danmaku is Some == live.huya_danmaku,
{
    let pairs = pairs_of(stream.stream_headers@);
    assert(pairs.len() == stream.stream_headers@.len());
    if pairs.len() == 1 {
        let header = stream.stream_headers@[0];
        assert(pairs[0] == (header.0@, header.1@));
    }
}

/// A page is read for the data of its room first, and an error in them is told first; then for its
/// streams.
pub proof fn pages_are_read_in_order(
    profile: Result<Option<HuyaRoomProfile>, LiveError>,
    page: Seq<char>,
    text: Seq<char>,
    room_data: JsonData,
    stream: JsonData,
    e: Seq<char>,
)
    requires
        says_of_page(profile, page),
    ensures
        ({
            let data = text_after(page, r"var\s+TT_ROOM_DATA\s*=\s*"@, ';');
            let read = Ok::<JsonData, Seq<char>>(room_data);
            &&& data is None ==> profile is Err && tells(
                profile->Err_0,
                "虎牙房间数据不存在"@,
            )
            &&& data == Some(Err::<Seq<char>, ()>(())) ==> profile is Err && tells(
                profile->Err_0,
                "虎牙房间数据不完整"@,
            )
            &&& data == Some(Ok::<Seq<char>, ()>(text)) && json_read(text) == Err::<
                JsonData,
                Seq<char>,
            >(e) ==> profile is Err && tells(profile->Err_0, "解析虎牙房间数据失败: "@ + e)
            &&& data == Some(Ok::<Seq<char>, ()>(text)) && json_read(text) == read && stream_value(
                page,
            ) == Err::<JsonData, Seq<char>>(e) ==> profile is Err && tells(profile->Err_0, e)
            &&& data == Some(Ok::<Seq<char>, ()>(text)) && json_read(text) == read && stream_value(
                page,
            ) == Ok::<JsonData, Seq<char>>(stream) ==> says_of_room(profile, room_data, stream)
        }),
{
}

/// An address is a room where the site is named in it, with or without the name of a host that
/// serves pages, over either protocol.
pub proof fn rooms_are_told_by_their_address(url: Seq<char>)
    ensures
        is_room_address(url) == (pattern_found(r"https?://(?:(?:www|m)\.)?huya\.com"@, url) == Some(
            true,
        )),
{
}

} // verus!
