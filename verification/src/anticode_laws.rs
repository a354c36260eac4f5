//! What holds of every signed query.

use crate::anticode::{fits_query, fits_user, hex_seconds, is_built, is_platform, is_random_uid, is_signed, lookup, named_platform, numbered_uid, platform, platform_named, secret_prefix, signed_query, signed_time, turned, uid_count};
use crate::live::{tells, LiveError};
use crate::outside::utf8_fault;
use crate::outside_web::{base64_read, md5_of, percent_decoded, percent_encoded, query_pairs};
use crate::text::{decimal, hexadecimal, lower};
use crate::web_laws::written_numbers_read;
use vstd::prelude::*;
use vstd::utf8::{decode_utf8, encode_utf8, valid_utf8};

verus! {

// ---------------------------------------------------------------------------
// Values of a query
// ---------------------------------------------------------------------------

/// `value` is the last that the query gives for `key`.
pub open spec fn is_last_value(
    query: Seq<(Seq<char>, Seq<char>)>,
    key: Seq<char>,
    value: Seq<char>,
) -> bool {
    exists|i: int|
        #![trigger query[i]]
        0 <= i < query.len() && query[i] == (key, value) && forall|j: int|
            i < j < query.len() ==> (#[trigger] query[j]).0 != key
}

/// What a query holds for a key is the last value that it gives for it, and nothing where it
/// gives none.
pub proof fn the_last_value_counts(
    query: Seq<(Seq<char>, Seq<char>)>,
    key: Seq<char>,
    value: Seq<char>,
)
    ensures
        (lookup(query, key) == Some(value)) == is_last_value(query, key, value),
        lookup(query, key) is None == forall|i: int|
            0 <= i < query.len() ==> (#[trigger] query[i]).0 != key,
    decreases query.len(),
{
    if query.len() > 0 {
        let n = query.len() - 1;
        let fewer = query.drop_last();
        the_last_value_counts(fewer, key, value);
        assert(query[n] == query.last());
        assert(forall|i: int| 0 <= i < n ==> #[trigger] fewer[i] == query[i]);
        if query.last().0 == key {
            if is_last_value(query, key, value) {
                let i = choose|i: int|
                    #![trigger query[i]]
                    0 <= i < query.len() && query[i] == (key, value) && forall|j: int|
                        i < j < query.len() ==> (#[trigger] query[j]).0 != key;
                assert(i == n);
            }
        } else {
            if is_last_value(query, key, value) {
                let i = choose|i: int|
                    #![trigger query[i]]
                    0 <= i < query.len() && query[i] == (key, value) && forall|j: int|
                        i < j < query.len() ==> (#[trigger] query[j]).0 != key;
                assert(fewer[i] == query[i]);
                assert(is_last_value(fewer, key, value));
            }
            if is_last_value(fewer, key, value) {
                let i = choose|i: int|
                    #![trigger fewer[i]]
                    0 <= i < fewer.len() && fewer[i] == (key, value) && forall|j: int|
                        i < j < fewer.len() ==> (#[trigger] fewer[j]).0 != key;
                assert(query[i] == fewer[i]);
                assert forall|j: int| i < j < query.len() implies (#[trigger] query[j]).0
                    != key by {
                    if j < n {
                        assert(fewer[j] == query[j]);
                    }
                }
                assert(is_last_value(query, key, value));
            }
            if lookup(fewer, key) is None {
                assert forall|i: int| 0 <= i < query.len() implies (#[trigger] query[i]).0
                    != key by {
                    if i < n {
                        assert(fewer[i] == query[i]);
                    }
                }
            } else {
                let i = choose|i: int| 0 <= i < fewer.len() && (#[trigger] fewer[i]).0 == key;
                assert(query[i].0 == key);
            }
        }
    }
}

// ---------------------------------------------------------------------------
// The signature
// ---------------------------------------------------------------------------

/// The user number of a query: on small screens the user, else the user with the low four bytes
/// moved up by one, the topmost of them to the bottom.
pub open spec fn carried_user(platform_id: Seq<char>, uid: u64, user: int) -> bool {
    if platform_id == "103"@ {
        user == uid
    } else {
        &&& 0 <= user <= u64::MAX
        &&& user / 0x1_0000_0000 == uid as int / 0x1_0000_0000
        &&& user % 0x1_0000_0000 == (uid as int % 0x100_0000) * 0x100 + uid as int / 0x100_0000
            % 0x100
    }
}

proof fn turning_carries(uid: u64)
    ensures
        0 <= turned(uid) <= u64::MAX,
        turned(uid) / 0x1_0000_0000 == uid as int / 0x1_0000_0000,
        turned(uid) % 0x1_0000_0000 == (uid as int % 0x100_0000) * 0x100 + uid as int / 0x100_0000
            % 0x100,
{
    let n = uid as int;
    let low = n % 0x1_0000_0000;
    let top = low / 0x100_0000;
    let rest = low % 0x100_0000;
    assert(low == top * 0x100_0000 + rest);
    assert(low * 0x100 == top * 0x1_0000_0000 + rest * 0x100);
    assert((low * 0x100) % 0x1_0000_0000 == rest * 0x100);
    assert(n % 0x100_0000 == rest);
    assert(n / 0x100_0000 % 0x100 == top);
}

/// A signed query carries all that its digest proves but the secret: the user, the number of the
/// request, its platform and the time stand in the text as they went into the digest. The number
/// of the request is the user's and the milliseconds since the epoch.
pub proof fn queries_carry_what_they_prove<F: Fn(u64) -> u32>(
    result: Result<String, LiveError>,
    stream_name: Seq<char>,
    query: Seq<(Seq<char>, Seq<char>)>,
    ctype: Seq<char>,
    platform_id: Seq<char>,
    uid: u64,
    now: u128,
    uuid_for: F,
) -> (carried: (int, Seq<char>, Seq<char>, Seq<char>, Seq<char>, u32))
    requires
        is_signed(result, stream_name, query, ctype, platform_id, uid, now, uuid_for),
        result is Ok,
    ensures
        ({
            let (user, time, fs, fm, prefix, uuid) = carried;
            let number = decimal((uid + (now as int / 1_000_000) % 0x1_0000_0000_0000_0000) as nat);
            let hash = md5_of(encode_utf8(number + "|"@ + ctype + "|"@ + platform_id));
            let secret = md5_of(
                encode_utf8(
                    prefix + "_"@ + decimal(user as nat) + "_"@ + stream_name + "_"@ + hash + "_"@
                        + time,
                ),
            );
            let text = "wsSecret="@ + secret + "&wsTime="@ + time + "&seqid="@ + number + "&ctype="@
                + ctype + "&ver=1&fs="@ + fs + "&fm="@ + percent_encoded(encode_utf8(fm)) + "&t="@
                + platform_id;
            &&& carried_user(platform_id, uid, user)
            &&& is_last_value(query, "fm"@, fm)
            &&& secret_prefix(fm) == Ok::<Seq<char>, Seq<char>>(prefix)
            &&& if exists|i: int| 0 <= i < query.len() && (#[trigger] query[i]).0 == "fs"@ {
                is_last_value(query, "fs"@, fs)
            } else {
                fs == "bgct"@
            }
            &&& hex_seconds(time) matches Some(until)
            &&& until >= now as int / 1_000_000_000 + 1200
            &&& until <= u64::MAX
            &&& platform_id == "103"@ ==> result->Ok_0@ == text + "&uid="@ + decimal(user as nat)
                + "&uuid="@ + decimal(uuid as nat) && call_ensures(uuid_for, (until as u64,), uuid)
            &&& platform_id != "103"@ ==> result->Ok_0@ == text + "&u="@ + decimal(user as nat)
        }),
{
    turning_carries(uid);
    let fm = lookup(query, "fm"@)->0;
    let prefix = secret_prefix(fm)->Ok_0;
    let said = lookup(query, "wsTime"@)->0;
    let time = signed_time(said, now as int / 1_000_000_000)->0;
    let fs = match lookup(query, "fs"@) {
        Some(fs) => fs,
        None => "bgct"@,
    };
    let signed = signed_query(stream_name, query, ctype, platform_id, uid, now);
    assert(signed is Query);
    the_last_value_counts(query, "fm"@, fm);
    the_last_value_counts(query, "fs"@, fs);
    let secs = now as int / 1_000_000_000;
    if secs + 86400 <= u64::MAX {
        written_numbers_read((secs + 86400) as u64, 16);
    }
    let user = if platform_id == "103"@ {
        uid as int
    } else {
        turned(uid)
    };
    if platform_id == "103"@ {
        let seconds = signed->Query_1;
        let head = signed->Query_0;
        let uuid = choose|uuid: u32| #[trigger]
            call_ensures(uuid_for, (seconds,), uuid) && result->Ok_0@
                == crate::anticode::with_user(head, platform_id, uid, uuid);
        (user, time, fs, fm, prefix, uuid)
    } else {
        (user, time, fs, fm, prefix, 0u32)
    }
}

/// A query is signed where it has a secret that can be read and a time, and the numbers can be
/// counted. Without a secret or a time, or with a secret that cannot be read, it is refused.
pub proof fn what_can_be_signed<F: Fn(u64) -> u32>(
    result: Result<String, LiveError>,
    stream_name: Seq<char>,
    query: Seq<(Seq<char>, Seq<char>)>,
    ctype: Seq<char>,
    platform_id: Seq<char>,
    uid: u64,
    now: u128,
    uuid_for: F,
    fm: Seq<char>,
    time: Seq<char>,
)
    requires
        is_signed(result, stream_name, query, ctype, platform_id, uid, now, uuid_for),
        uid + (now as int / 1_000_000) % 0x1_0000_0000_0000_0000 <= u64::MAX,
        now as int / 1_000_000_000 + 86400 <= u64::MAX,
    ensures
        is_last_value(query, "fm"@, fm) && secret_prefix(fm) is Ok && is_last_value(
            query,
            "wsTime"@,
            time,
        ) ==> result is Ok,
        (forall|i: int| 0 <= i < query.len() ==> (#[trigger] query[i]).0 != "fm"@) ==> result is Err
            && tells(result->Err_0, "虎牙 fm 为空"@),
        is_last_value(query, "fm"@, fm) && secret_prefix(fm) is Err ==> result is Err && tells(
            result->Err_0,
            secret_prefix(fm)->Err_0,
        ),
        is_last_value(query, "fm"@, fm) && secret_prefix(fm) is Ok && (forall|i: int|
            0 <= i < query.len() ==> (#[trigger] query[i]).0 != "wsTime"@) ==> result is Err
            && tells(result->Err_0, "虎牙 wsTime 为空"@),
{
    the_last_value_counts(query, "fm"@, fm);
    the_last_value_counts(query, "wsTime"@, time);
}

/// A request whose number cannot be counted is not signed, whatever else is wrong with it.
pub proof fn uncounted_requests_are_not_signed<F: Fn(u64) -> u32>(
    result: Result<String, LiveError>,
    stream_name: Seq<char>,
    query: Seq<(Seq<char>, Seq<char>)>,
    ctype: Seq<char>,
    platform_id: Seq<char>,
    uid: u64,
    now: u128,
    uuid_for: F,
)
    requires
        is_signed(result, stream_name, query, ctype, platform_id, uid, now, uuid_for),
        uid + (now as int / 1_000_000) % 0x1_0000_0000_0000_0000 > u64::MAX,
    ensures
        result == Err::<String, LiveError>(LiveError::Overflow),
{
}

/// A time that has run out within twenty minutes, or that is none, is renewed to a day from now.
pub proof fn times_are_renewed_by_a_day(said: Seq<char>, now_secs: u64)
    requires
        now_secs + 24 * 60 * 60 <= u64::MAX,
        hex_seconds(said) matches Some(until) ==> until < now_secs + 20 * 60,
    ensures
        signed_time(said, now_secs as int) == Some(hexadecimal((now_secs + 86400) as nat)),
        hex_seconds(signed_time(said, now_secs as int)->0) == Some(now_secs + 86400),
{
    written_numbers_read((now_secs + 86400) as u64, 16);
}

/// The secret is what stands before the first underscore of the parameter, unescaped and decoded;
/// the whole of it where there is none.
pub proof fn secrets_end_at_the_underscore(fm: Seq<char>, bytes: Seq<u8>)
    requires
        valid_utf8(percent_decoded(encode_utf8(fm))),
        base64_read(encode_utf8(decode_utf8(percent_decoded(encode_utf8(fm))))) == Ok::<
            Seq<u8>,
            Seq<char>,
        >(bytes),
        valid_utf8(bytes),
    ensures
        secret_prefix(fm) matches Ok(prefix) && {
            let text = decode_utf8(bytes);
            &&& prefix.len() <= text.len()
            &&& prefix == text.take(prefix.len() as int)
            &&& forall|i: int| 0 <= i < prefix.len() ==> #[trigger] prefix[i] != '_'
            &&& prefix.len() < text.len() ==> text[prefix.len() as int] == '_'
        },
{
    crate::text_laws::up_to_stops_at_the_mark(decode_utf8(bytes), '_');
}

// ---------------------------------------------------------------------------
// Users and platforms
// ---------------------------------------------------------------------------

/// A user who is given is the one that a query is signed for; where none is, a number of eight
/// digits that begins with 1234 or one of thirteen that begins with 140000 stands for it.
pub proof fn users_are_kept_or_drawn(uid: u64, chosen: u64)
    ensures
        uid > 0 ==> fits_user(Some(uid), chosen) == (chosen == uid),
        fits_user(None, chosen) == (chosen / 10_000 == 1234 || chosen / 10_000_000 == 140_000),
        fits_user(Some(0), chosen) == fits_user(None, chosen),
{
}

/// Every number that stands for a user who is not known can be drawn, and two draws that differ
/// give two users.
pub proof fn every_user_can_be_drawn(uid: u64, short: bool, n: u64, other: u64)
    ensures
        is_random_uid(uid) ==> exists|kind: bool, k: u64|
            k < uid_count(kind) && #[trigger] numbered_uid(kind, k) == uid,
        n < uid_count(short) ==> is_random_uid(numbered_uid(short, n) as u64),
        n != other ==> numbered_uid(short, n) != numbered_uid(short, other),
{
    if 12340000 <= uid < 12350000 {
        assert(numbered_uid(true, (uid - 12340000) as u64) == uid);
    } else if is_random_uid(uid) {
        assert(numbered_uid(false, (uid - 1400000000000) as u64) == uid);
    }
}

/// What names a platform, capitals aside, and its number.
pub open spec fn numbered(ctype: Seq<char>) -> Option<Seq<char>> {
    if lower(ctype) == lower("huya_pc_exe"@) {
        Some("0"@)
    } else if lower(ctype) == lower("huya_adr"@) {
        Some("2"@)
    } else if lower(ctype) == lower("huya_ios"@) {
        Some("3"@)
    } else if lower(ctype) == lower("tv_huya_nftv"@) {
        Some("10"@)
    } else if lower(ctype) == lower("huya_webh5"@) || lower(ctype) == lower("huya_live"@) {
        Some("100"@)
    } else if lower(ctype) == lower("tars_mp"@) {
        Some("102"@)
    } else if lower(ctype) == lower("tars_mobile"@) {
        Some("103"@)
    } else if lower(ctype) == lower("huya_liveshareh5"@) {
        Some("104"@)
    } else {
        None
    }
}

/// Each client has the number under which the delivery network knows it.
pub proof fn platforms_have_their_numbers(ctype: Seq<char>)
    ensures
        match platform_named(ctype, 0) {
            Some(i) => 0 <= i < 9 && numbered(ctype) == Some(platform(i).1) && lower(platform(i).0)
                == lower(ctype),
            None => numbered(ctype) is None,
        },
{
    reveal_with_fuel(platform_named, 10);
}

/// A query that names its client is signed for it: under the number that it gives, else under the
/// client's own, else under that of the web. Any other is signed for a client of the table. An
/// empty value counts as none.
pub proof fn queries_are_signed_for_their_client(
    query: Seq<(Seq<char>, Seq<char>)>,
    name: Seq<char>,
    number: Seq<char>,
    ctype: Seq<char>,
    id: Seq<char>,
)
    requires
        fits_query(query, ctype, id),
    ensures
        is_last_value(query, "ctype"@, name) && name.len() > 0 ==> ctype == name,
        is_last_value(query, "ctype"@, name) && name.len() > 0 && is_last_value(
            query,
            "t"@,
            number,
        ) && number.len() > 0 ==> id == number,
        is_last_value(query, "ctype"@, name) && name.len() > 0 && ((forall|i: int|
            0 <= i < query.len() ==> (#[trigger] query[i]).0 != "t"@) || is_last_value(
            query,
            "t"@,
            Seq::empty(),
        )) ==> id == match numbered(name) {
            Some(own) => own,
            None => "100"@,
        },
        (forall|i: int| 0 <= i < query.len() ==> (#[trigger] query[i]).0 != "ctype"@)
            || is_last_value(query, "ctype"@, Seq::empty()) ==> is_platform(ctype, id) && numbered(
            ctype,
        ) == Some(id),
{
    the_last_value_counts(query, "ctype"@, name);
    the_last_value_counts(query, "ctype"@, Seq::empty());
    the_last_value_counts(query, "t"@, number);
    the_last_value_counts(query, "t"@, Seq::empty());
    platforms_have_their_numbers(name);
    if named_platform(query) is None {
        let i = choose|i: int| 0 <= i < 9 && #[trigger] platform(i) == (ctype, id);
        table_is_numbered(i);
    }
}

proof fn table_is_numbered(i: int)
    requires
        0 <= i < 9,
    ensures
        numbered(platform(i).0) == Some(platform(i).1),
{
    names_differ();
    let named = lower(platform(i).0);
    assert(0 != i ==> lower(platform(0).0) != named);
    assert(1 != i ==> lower(platform(1).0) != named);
    assert(2 != i ==> lower(platform(2).0) != named);
    assert(3 != i ==> lower(platform(3).0) != named);
    assert(4 != i ==> lower(platform(4).0) != named);
    assert(5 != i ==> lower(platform(5).0) != named);
    assert(6 != i ==> lower(platform(6).0) != named);
    assert(7 != i ==> lower(platform(7).0) != named);
    assert(8 != i ==> lower(platform(8).0) != named);
}

/// The names of the table differ, capitals aside.
proof fn names_differ()
    ensures
        forall|i: int, j: int|
            0 <= i < j < 9 ==> #[trigger] lower(platform(i).0) != #[trigger] lower(platform(j).0),
{
    reveal_strlit("huya_pc_exe");
    reveal_strlit("huya_adr");
    reveal_strlit("huya_ios");
    reveal_strlit("tv_huya_nftv");
    reveal_strlit("huya_webh5");
    reveal_strlit("huya_live");
    reveal_strlit("tars_mp");
    reveal_strlit("tars_mobile");
    reveal_strlit("huya_liveshareh5");
    assert forall|i: int, j: int| 0 <= i < j < 9 implies #[trigger] lower(platform(i).0)
        != #[trigger] lower(platform(j).0) by {
        let a = platform(i).0;
        let b = platform(j).0;
        assert(lower(a).len() == a.len() && lower(b).len() == b.len());
        if a.len() == b.len() {
            assert(lower(a)[5] == crate::text::lower_char(a[5]));
            assert(lower(b)[5] == crate::text::lower_char(b[5]));
            assert(lower(a)[0] == crate::text::lower_char(a[0]));
            assert(lower(b)[0] == crate::text::lower_char(b[0]));
        }
    }
}

/// Every client of the table may be drawn.
pub proof fn every_client_may_be_drawn(i: int)
    requires
        0 <= i < 9,
    ensures
        is_platform(platform(i).0, platform(i).1),
{
    assert(platform(i) == (platform(i).0, platform(i).1));
}

/// A secret that cannot be read is refused, and the error tells at which step.
pub proof fn unreadable_secrets_are_refused(fm: Seq<char>)
    ensures
        ({
            let raw = percent_decoded(encode_utf8(fm));
            let read = base64_read(encode_utf8(decode_utf8(raw)));
            &&& !valid_utf8(raw) ==> secret_prefix(fm) == Err::<Seq<char>, Seq<char>>(
                "解码虎牙 fm 参数失败: "@ + utf8_fault(raw),
            )
            &&& valid_utf8(raw) && read is Err ==> secret_prefix(fm) == Err::<
                Seq<char>,
                Seq<char>,
            >("解码虎牙 fm base64 失败: "@ + read->Err_0)
            &&& valid_utf8(raw) && read is Ok && !valid_utf8(read->Ok_0) ==> secret_prefix(fm)
                == Err::<Seq<char>, Seq<char>>(
                "虎牙 fm 参数不是 UTF-8: "@ + utf8_fault(read->Ok_0),
            )
        }),
{
}

/// A query without a secret stays as it is. Any other that comes out is signed, at some time, for
/// the client that it names and the user that is given.
pub proof fn queries_without_secrets_stay<F: Fn(u64) -> u32>(
    result: Result<String, LiveError>,
    stream_name: Seq<char>,
    anti_code: Seq<char>,
    uid: u64,
    uuid_for: F,
)
    requires
        is_built(result, stream_name, anti_code, Some(uid), uuid_for),
        uid > 0,
    ensures
        ({
            let query = query_pairs(encode_utf8(anti_code));
            let secret = exists|i: int| 0 <= i < query.len() && (#[trigger] query[i]).0 == "fm"@;
            &&& !secret ==> result is Ok && result->Ok_0@ == anti_code
            &&& secret && result is Ok ==> exists|ctype: Seq<char>, id: Seq<char>, now: u128|
                fits_query(query, ctype, id) && #[trigger] is_signed(
                    result,
                    stream_name,
                    query,
                    ctype,
                    id,
                    uid,
                    now,
                    uuid_for,
                )
        }),
{
    let query = query_pairs(encode_utf8(anti_code));
    the_last_value_counts(query, "fm"@, Seq::empty());
    if lookup(query, "fm"@) is Some && result is Ok {
        let (ctype, id, chosen, now) = choose|
            ctype: Seq<char>,
            id: Seq<char>,
            chosen: u64,
            now: u128,
        |
            #![trigger is_signed(result, stream_name, query, ctype, id, chosen, now, uuid_for)]
            fits_query(query, ctype, id) && fits_user(Some(uid), chosen) && now
                <= crate::time::MAX_DURATION_NANOS && is_signed(
                result,
                stream_name,
                query,
                ctype,
                id,
                chosen,
                now,
                uuid_for,
            );
        assert(chosen == uid);
    }
}

} // verus!
