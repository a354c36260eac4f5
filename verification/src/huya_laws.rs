//! What holds of the streams of every room.

use crate::huya::{secured, text_or_error, HuyaLive, HuyaProtocol};
use crate::huya_streams::{best_ratio, bitrate_of, chosen_url, first_offered, gathered, in_rank, is_own_network, listed_urls, offered, on_network, placed, selected_url, source_of, usable, with_codec, with_ratio, AnticodeSource, Ranked};
use crate::json::{field, i64_field, u64_field, JsonData};
use crate::live::LiveError;
use crate::text::{contains, decimal};
use vstd::prelude::*;

verus! {

/// The priorities never rise.
pub open spec fn falling<T>(items: Seq<Ranked<T>>) -> bool {
    forall|i: int, j: int|
        0 <= i <= j < items.len() ==> (#[trigger] items[i]).priority >= (
        #[trigger] items[j]).priority
}

/// The streams of one priority, in their order.
pub open spec fn of_priority<T>(items: Seq<Ranked<T>>, priority: i64) -> Seq<Ranked<T>>
    decreases items.len(),
{
    if items.len() == 0 {
        items
    } else {
        let rest = of_priority(items.drop_last(), priority);
        if items.last().priority == priority {
            rest.push(items.last())
        } else {
            rest
        }
    }
}

proof fn placed_keeps<T>(sorted: Seq<Ranked<T>>, item: Ranked<T>, priority: i64)
    requires
        falling(sorted),
    ensures
        falling(placed(sorted, item)),
        placed(sorted, item).len() == sorted.len() + 1,
        placed(sorted, item).to_multiset() == sorted.to_multiset().insert(item),
        forall|k: int|
            0 <= k < placed(sorted, item).len() ==> (#[trigger] placed(sorted, item)[k]).priority
                >= item.priority || sorted.len() > 0 && placed(sorted, item)[k].priority
                >= sorted.last().priority,
        of_priority(placed(sorted, item), priority) == if item.priority == priority {
            of_priority(sorted, priority).push(item)
        } else {
            of_priority(sorted, priority)
        },
    decreases sorted.len(),
{
    broadcast use vstd::seq_lib::group_to_multiset_ensures;

    let done = placed(sorted, item);
    if sorted.len() == 0 || sorted.last().priority >= item.priority {
        assert(done.drop_last() =~= sorted);
        assert forall|i: int, j: int| 0 <= i <= j < done.len() implies (
        #[trigger] done[i]).priority >= (#[trigger] done[j]).priority by {
            if j == sorted.len() && i < j {
                assert(sorted[i].priority >= sorted[sorted.len() - 1].priority);
            }
        }
    } else {
        let front = sorted.drop_last();
        let last = sorted.last();
        assert forall|i: int, j: int| 0 <= i <= j < front.len() implies (
        #[trigger] front[i]).priority >= (#[trigger] front[j]).priority by {
            assert(front[i] == sorted[i] && front[j] == sorted[j]);
        }
        placed_keeps(front, item, priority);
        let inner = placed(front, item);
        assert(done.drop_last() =~= inner);
        assert(sorted =~= front.push(last));
        assert(done.to_multiset() =~= sorted.to_multiset().insert(item));
        assert forall|k: int| 0 <= k < inner.len() implies (#[trigger] inner[k]).priority
            >= last.priority by {
            if front.len() > 0 {
                assert(sorted[front.len() - 1].priority >= sorted[sorted.len() - 1].priority);
                assert(front.last() == sorted[front.len() - 1]);
            }
        }
        assert forall|i: int, j: int| 0 <= i <= j < done.len() implies (
        #[trigger] done[i]).priority >= (#[trigger] done[j]).priority by {
            if j < inner.len() {
                assert(done[i] == inner[i] && done[j] == inner[j]);
            } else if i < inner.len() {
                assert(done[i] == inner[i]);
            }
        }
        assert(of_priority(done, priority) =~= if item.priority == priority {
            of_priority(sorted, priority).push(item)
        } else {
            of_priority(sorted, priority)
        }) by {
            if item.priority == priority {
                assert(last.priority != priority);
            }
        }
    }
}

/// The streams in rank are the streams, none lost and none added; their priorities never rise;
/// and those of one priority stand in the order in which the room lists them.
pub proof fn ranking_is_a_stable_order<T>(items: Seq<Ranked<T>>, priority: i64)
    ensures
        falling(in_rank(items)),
        in_rank(items).to_multiset() == items.to_multiset(),
        of_priority(in_rank(items), priority) == of_priority(items, priority),
    decreases items.len(),
{
    broadcast use vstd::seq_lib::group_to_multiset_ensures;

    if items.len() > 0 {
        let front = items.drop_last();
        ranking_is_a_stable_order(front, priority);
        placed_keeps(in_rank(front), items.last(), priority);
        assert(items =~= front.push(items.last()));
        assert(in_rank(items).to_multiset() =~= items.to_multiset());
    }
}

/// No address is on a network that is not used.
pub proof fn own_networks_are_left_out(items: Seq<Ranked<Seq<char>>>)
    ensures
        forall|i: int|
            0 <= i < usable(items).len() ==> !is_own_network((#[trigger] usable(items)[i]).0),
    decreases items.len(),
{
    if items.len() > 0 {
        own_networks_are_left_out(items.drop_last());
        let rest = usable(items.drop_last());
        assert forall|i: int| 0 <= i < usable(items).len() implies !is_own_network(
            (#[trigger] usable(items)[i]).0,
        ) by {
            if i < rest.len() {
                assert(usable(items)[i] == rest[i]);
            }
        }
    }
}

/// The bit rate that is asked for is offered, within the limit, and the highest of those that
/// are.
pub proof fn ratio_is_the_best_within_the_limit(
    bitrates: Seq<JsonData>,
    max_bitrate: u32,
    limit: u32,
    n: int,
)
    requires
        n <= bitrates.len(),
    ensures
        match best_ratio(bitrates, max_bitrate, limit, n) {
            Some(best) => {
                &&& best <= limit
                &&& exists|i: int|
                    0 <= i < n && bitrate_of(#[trigger] bitrates[i], max_bitrate) == best
                &&& forall|i: int|
                    0 <= i < n && bitrate_of(#[trigger] bitrates[i], max_bitrate) <= limit
                        ==> bitrate_of(bitrates[i], max_bitrate) <= best
            },
            None => forall|i: int|
                0 <= i < n ==> bitrate_of(#[trigger] bitrates[i], max_bitrate) > limit,
        },
    decreases n,
{
    if n > 0 {
        ratio_is_the_best_within_the_limit(bitrates, max_bitrate, limit, n - 1);
        assert(bitrate_of(bitrates[n - 1], max_bitrate) == bitrate_of(
            bitrates[n - 1],
            max_bitrate,
        ));
    }
}

/// An address is taken exactly where there is one, and it is one of them.
pub proof fn chosen_url_is_offered(urls: Seq<(Seq<char>, Seq<char>)>, cdn: Seq<char>)
    ensures
        match chosen_url(urls, cdn) {
            Some(url) => exists|i: int| 0 <= i < urls.len() && (#[trigger] urls[i]).1 == url,
            None => urls.len() == 0,
        },
{
    on_network_is_offered(urls, cdn, 0);
    if urls.len() > 0 {
        assert(urls[0].1 == urls[0].1);
    }
}

proof fn on_network_is_offered(urls: Seq<(Seq<char>, Seq<char>)>, cdn: Seq<char>, i: int)
    requires
        0 <= i,
    ensures
        on_network(urls, cdn, i) matches Some(url) ==> exists|k: int|
            0 <= k < urls.len() && (#[trigger] urls[k]).1 == url,
    decreases urls.len() - i,
{
    if i < urls.len() {
        if urls[i].0 == cdn {
            assert(urls[i].1 == urls[i].1);
        } else {
            on_network_is_offered(urls, cdn, i + 1);
        }
    }
}

// ---------------------------------------------------------------------------
// The address that is taken
// ---------------------------------------------------------------------------

proof fn on_network_is_first(urls: Seq<(Seq<char>, Seq<char>)>, cdn: Seq<char>, i: int)
    requires
        0 <= i <= urls.len(),
    ensures
        match on_network(urls, cdn, i) {
            Some(url) => exists|k: int|
                #![trigger urls[k]]
                i <= k < urls.len() && urls[k] == (cdn, url) && forall|j: int|
                    i <= j < k ==> (#[trigger] urls[j]).0 != cdn,
            None => forall|k: int| i <= k < urls.len() ==> (#[trigger] urls[k]).0 != cdn,
        },
    decreases urls.len() - i,
{
    if i < urls.len() {
        if urls[i].0 == cdn {
            assert(urls[i] == (cdn, urls[i].1));
        } else {
            on_network_is_first(urls, cdn, i + 1);
            if let Some(url) = on_network(urls, cdn, i + 1) {
                let k = choose|k: int|
                    #![trigger urls[k]]
                    i + 1 <= k < urls.len() && urls[k] == (cdn, url) && forall|j: int|
                        i + 1 <= j < k ==> (#[trigger] urls[j]).0 != cdn;
                assert forall|j: int| i <= j < k implies (#[trigger] urls[j]).0 != cdn by {}
            }
        }
    }
}

/// Where a network is asked for and an address is on it, the first of those is taken; else the
/// first of all.
pub proof fn the_network_asked_for_is_taken(
    urls: Seq<(Seq<char>, Seq<char>)>,
    cdn: Seq<char>,
    k: int,
)
    requires
        0 <= k < urls.len(),
    ensures
        cdn.len() > 0 && urls[k].0 == cdn && (forall|j: int|
            0 <= j < k ==> (#[trigger] urls[j]).0 != cdn) ==> chosen_url(urls, cdn) == Some(
            urls[k].1,
        ),
        (cdn.len() == 0 || forall|j: int| 0 <= j < urls.len() ==> (#[trigger] urls[j]).0 != cdn)
            ==> chosen_url(urls, cdn) == Some(urls[0].1),
{
    on_network_is_first(urls, cdn, 0);
    if let Some(url) = on_network(urls, cdn, 0) {
        let n = choose|n: int|
            #![trigger urls[n]]
            0 <= n < urls.len() && urls[n] == (cdn, url) && forall|j: int|
                0 <= j < n ==> (#[trigger] urls[j]).0 != cdn;
        if urls[k].0 == cdn && (forall|j: int| 0 <= j < k ==> (#[trigger] urls[j]).0 != cdn) {
            assert(n == k);
        }
    }
}

/// The networks whose addresses are left out are three, by name.
pub open spec fn left_out(cdn: Seq<char>) -> bool {
    cdn == "HY"@ || cdn == "HUYA"@ || cdn == "HYZJ"@
}

/// Every stream on another network gives its address, in the order of the streams; no other
/// address is given.
pub proof fn other_networks_are_kept(
    items: Seq<Ranked<Seq<char>>>,
    item: Ranked<Seq<char>>,
)
    ensures
        usable(Seq::empty()).len() == 0,
        usable(items.push(item)) == if left_out(item.cdn) {
            usable(items)
        } else {
            usable(items).push((item.cdn, item.url))
        },
{
    assert(items.push(item).drop_last() =~= items);
}

// ---------------------------------------------------------------------------
// The addresses of the streams
// ---------------------------------------------------------------------------

/// A stream may be taken unless its priority is negative. It gives one address: the base, secured,
/// the name, the suffix, and the signed query with the codec that is asked for.
pub proof fn every_stream_gives_its_address(
    live: HuyaLive,
    streams: Seq<JsonData>,
    token: Seq<char>,
    items: Seq<Ranked<Seq<char>>>,
    n: int,
)
    requires
        0 <= n < streams.len(),
        gathered(live, streams, with_codec(Some(token), live.huya_codec@), n) == Ok::<
            Seq<Ranked<Seq<char>>>,
            Seq<char>,
        >(items),
    ensures
        ({
            let stream = streams[n];
            let flv = live.huya_protocol == HuyaProtocol::Flv;
            let name = text_or_error(stream, "sStreamName"@);
            let cdn = text_or_error(stream, "sCdnType"@);
            let suffix = text_or_error(
                stream,
                if flv {
                    "sFlvUrlSuffix"@
                } else {
                    "sHlsUrlSuffix"@
                },
            );
            let base = text_or_error(
                stream,
                if flv {
                    "sFlvUrl"@
                } else {
                    "sHlsUrl"@
                },
            );
            let rate = i64_field(stream, "iWebPriorityRate"@);
            let more = gathered(live, streams, with_codec(Some(token), live.huya_codec@), n + 1);
            &&& rate < 0 ==> more == Ok::<Seq<Ranked<Seq<char>>>, Seq<char>>(items)
            &&& rate >= 0 && name is Ok && cdn is Ok && suffix is Ok && base is Ok ==> more == Ok::<
                Seq<Ranked<Seq<char>>>,
                Seq<char>,
            >(
                items.push(
                    Ranked {
                        cdn: cdn->Ok_0,
                        priority: rate,
                        url: secured(base->Ok_0) + "/"@ + live.stream_name(name->Ok_0) + "."@
                            + suffix->Ok_0 + "?"@ + (token + "&codec="@ + live.huya_codec@),
                    },
                ),
            )
            &&& rate >= 0 && !(name is Ok && cdn is Ok && suffix is Ok && base is Ok)
                ==> more is Err
        }),
{
}

/// Without a signed query there is no address of a stream that may be taken.
pub proof fn streams_need_a_token(live: HuyaLive, streams: Seq<JsonData>, n: int)
    requires
        0 <= n < streams.len(),
        i64_field(streams[n], "iWebPriorityRate"@) >= 0,
    ensures
        gathered(live, streams, with_codec(None, live.huya_codec@), n + 1) is Err,
{
}

/// Where the signed query comes from goes by what is asked for: the WUP service, unless pictures
/// are asked of the mobile API; else the page, whose query is signed for the presenter, or taken
/// as it is where pictures are asked of the mobile API.
pub proof fn tokens_come_from_where_they_are_asked(
    live: HuyaLive,
    stream: JsonData,
    source: Result<Option<AnticodeSource>, LiveError>,
    name: Seq<char>,
    code: Seq<char>,
)
    requires
        source_of(live, stream, source),
        source is Ok,
        text_or_error(stream, "sStreamName"@) == Ok::<Seq<char>, Seq<char>>(name),
        text_or_error(
            stream,
            if live.huya_protocol == HuyaProtocol::Flv {
                "sFlvAntiCode"@
            } else {
                "sHlsAntiCode"@
            },
        ) == Ok::<Seq<char>, Seq<char>>(code),
    ensures
        ({
            let pictures = live.huya_mobile_api && live.huya_imgplus;
            let user = u64_field(stream, "lPresenterUid"@);
            &&& live.huya_use_wup && !pictures ==> (source matches Ok(
                Some(AnticodeSource::Wup { stream_name, uid }),
            ) && stream_name@ == live.stream_name(name) && uid == user)
            &&& pictures ==> (source matches Ok(Some(AnticodeSource::Raw(text))) && text@ == code)
            &&& !live.huya_use_wup && !pictures ==> (source matches Ok(
                Some(AnticodeSource::Page { stream_name, anti_code, uid }),
            ) && stream_name@ == live.stream_name(name) && anti_code@ == code && uid == user)
        }),
{
}

/// The first stream that may be taken decides.
pub proof fn the_first_stream_offered_decides(streams: Seq<JsonData>, i: int, k: int)
    requires
        0 <= i <= k < streams.len(),
        i64_field(streams[k], "iWebPriorityRate"@) >= 0,
        forall|j: int|
            i <= j < k ==> i64_field(#[trigger] streams[j], "iWebPriorityRate"@) < 0,
    ensures
        first_offered(streams, i) == Some(k),
    decreases k - i,
{
    if i < k {
        assert(!offered(streams[i]));
        the_first_stream_offered_decides(streams, i + 1, k);
    }
}

/// Where no stream may be taken, none is found.
pub proof fn no_stream_is_offered(streams: Seq<JsonData>, i: int)
    requires
        0 <= i,
        forall|j: int|
            i <= j < streams.len() ==> i64_field(#[trigger] streams[j], "iWebPriorityRate"@) < 0,
    ensures
        first_offered(streams, i) is None,
    decreases streams.len() - i,
{
    if i < streams.len() {
        assert(!offered(streams[i]));
        no_stream_is_offered(streams, i + 1);
    }
}

// ---------------------------------------------------------------------------
// The bit rate
// ---------------------------------------------------------------------------

/// An address gets the highest bit rate that the room offers within the limit, unless there is no
/// limit, it has one already, or none within the limit is above zero. A bit rate that is not given
/// is the highest of the room.
pub proof fn the_ratio_is_added_once(
    url: Seq<char>,
    bitrates: Seq<JsonData>,
    max_bitrate: u32,
    limit: u32,
    best: int,
)
    requires
        0 <= best < bitrates.len(),
        bitrate_of(bitrates[best], max_bitrate) <= limit,
        forall|i: int|
            0 <= i < bitrates.len() && bitrate_of(#[trigger] bitrates[i], max_bitrate) <= limit
                ==> bitrate_of(bitrates[i], max_bitrate) <= bitrate_of(
                bitrates[best],
                max_bitrate,
            ),
    ensures
        limit == 0 || contains(url, "&ratio"@) ==> with_ratio(url, bitrates, max_bitrate, limit)
            == url,
        limit > 0 && !contains(url, "&ratio"@) && bitrate_of(bitrates[best], max_bitrate) > 0
            ==> with_ratio(url, bitrates, max_bitrate, limit) == url + "&ratio="@ + decimal(
            bitrate_of(bitrates[best], max_bitrate) as nat,
        ),
        bitrate_of(bitrates[best], max_bitrate) == 0 ==> with_ratio(
            url,
            bitrates,
            max_bitrate,
            limit,
        ) == url,
{
    let n = bitrates.len() as int;
    ratio_is_the_best_within_the_limit(bitrates, max_bitrate, limit, n);
    let rate = bitrate_of(bitrates[best], max_bitrate);
    if let Some(top) = best_ratio(bitrates, max_bitrate, limit, n) {
        let i = choose|i: int|
            0 <= i < n && bitrate_of(#[trigger] bitrates[i], max_bitrate) == top;
        assert(bitrate_of(bitrates[i], max_bitrate) <= rate);
        assert(top == rate);
    }
}

/// Where every bit rate of the room is above the limit, none is asked for.
pub proof fn no_ratio_within_the_limit(
    url: Seq<char>,
    bitrates: Seq<JsonData>,
    max_bitrate: u32,
    limit: u32,
)
    requires
        forall|i: int|
            0 <= i < bitrates.len() ==> bitrate_of(#[trigger] bitrates[i], max_bitrate) > limit,
    ensures
        with_ratio(url, bitrates, max_bitrate, limit) == url,
{
    ratio_is_the_best_within_the_limit(bitrates, max_bitrate, limit, bitrates.len() as int);
}

/// A bit rate is what its field says; without the field, or where it is no number, it is the
/// highest of the room.
pub proof fn bit_rates_are_read(info: JsonData, max_bitrate: u32, rate: u32)
    ensures
        field(info, "iBitRate"@) == Some(JsonData::PosInt(rate as u64)) ==> bitrate_of(
            info,
            max_bitrate,
        ) == rate,
        field(info, "iBitRate"@) is None ==> bitrate_of(info, max_bitrate) == max_bitrate,
        field(info, "iBitRate"@) matches Some(JsonData::Text(_)) ==> bitrate_of(info, max_bitrate)
            == max_bitrate,
{
}

// ---------------------------------------------------------------------------
// From streams to the address
// ---------------------------------------------------------------------------

/// The addresses of a room are those of its streams in rank, without those on the networks that
/// are left out; an error of a stream is the error of all.
pub proof fn addresses_stand_in_rank(
    live: HuyaLive,
    streams: Seq<JsonData>,
    token: Seq<char>,
    items: Seq<Ranked<Seq<char>>>,
    e: Seq<char>,
)
    ensures
        ({
            let query = Some(token + "&codec="@ + live.huya_codec@);
            let all = gathered(live, streams, query, streams.len() as int);
            let urls = listed_urls(live, streams, Some(token));
            &&& all == Ok::<Seq<Ranked<Seq<char>>>, Seq<char>>(items) ==> urls == Ok::<
                Seq<(Seq<char>, Seq<char>)>,
                Seq<char>,
            >(usable(in_rank(items)))
            &&& all == Err::<Seq<Ranked<Seq<char>>>, Seq<char>>(e) ==> urls == Err::<
                Seq<(Seq<char>, Seq<char>)>,
                Seq<char>,
            >(e)
        }),
{
}

/// The address that is recorded is the one that is taken, with the bit rate that is asked for, and
/// there is one exactly where there is an address.
pub proof fn the_address_taken_is_recorded(
    live: HuyaLive,
    urls: Seq<(Seq<char>, Seq<char>)>,
    bitrates: Seq<JsonData>,
    max_bitrate: u32,
    k: int,
)
    requires
        0 <= k < urls.len(),
        forall|j: int| 0 <= j < k ==> (#[trigger] urls[j]).0 != live.huya_cdn@,
    ensures
        selected_url(live, Seq::empty(), bitrates, max_bitrate) is None,
        live.huya_cdn@.len() > 0 && urls[k].0 == live.huya_cdn@ ==> selected_url(
            live,
            urls,
            bitrates,
            max_bitrate,
        ) == Some(with_ratio(urls[k].1, bitrates, max_bitrate, live.huya_max_ratio)),
        live.huya_cdn@.len() == 0 ==> selected_url(live, urls, bitrates, max_bitrate) == Some(
            with_ratio(urls[0].1, bitrates, max_bitrate, live.huya_max_ratio),
        ),
{
    the_network_asked_for_is_taken(urls, live.huya_cdn@, k);
    chosen_url_is_offered(Seq::empty(), live.huya_cdn@);
}

} // verus!
