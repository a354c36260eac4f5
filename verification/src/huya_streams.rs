//! The addresses of the streams of a Huya room, best first, and the one that is recorded.

use crate::huya::{json_str, low32, secured, text_or_error, HuyaLive, HuyaRoomProfile};
use crate::json::{field, i64_field, u64_field, u64_in, values_at, values_of, Json, JsonData};
use crate::live::{tells, LiveError};
use crate::text::{contains, decimal, pairs_of, push_decimal, same_text, text_contains, text_replaced};
use vstd::prelude::*;

verus! {

/// One stream of a room. Texts or their views.
#[derive(Debug)]
pub struct Ranked<T> {
    pub cdn: T,
    pub priority: i64,
    pub url: T,
}

impl View for Ranked<String> {
    type V = Ranked<Seq<char>>;

    open spec fn view(&self) -> Ranked<Seq<char>> {
        Ranked { cdn: self.cdn@, priority: self.priority, url: self.url@ }
    }
}

/// Streams by their views.
pub open spec fn ranked_of(streams: Seq<Ranked<String>>) -> Seq<Ranked<Seq<char>>> {
    streams.map_values(|r: Ranked<String>| r@)
}

// ---------------------------------------------------------------------------
// The token
// ---------------------------------------------------------------------------

/// Where the signed query of the streams comes from.
#[derive(Debug)]
pub enum AnticodeSource {
    /// The token of a stream, asked of the WUP service and signed for a user.
    Wup { stream_name: String, uid: u64 },
    /// The query of the page, signed for a user.
    Page { stream_name: String, anti_code: String, uid: u64 },
    /// The query of the page as it is.
    Raw(String),
}

/// The fields of a stream that its address is made of: name, network, suffix and base.
pub struct StreamFields {
    pub name: Seq<char>,
    pub cdn: Seq<char>,
    pub suffix: Seq<char>,
    pub base: Seq<char>,
}

/// The fields of a stream, or the text of the error for the first that is missing.
pub open spec fn stream_fields(live: HuyaLive, stream: JsonData) -> Result<StreamFields, Seq<char>> {
    match text_or_error(stream, "sStreamName"@) {
        Err(e) => Err(e),
        Ok(name) => match text_or_error(stream, "sCdnType"@) {
            Err(e) => Err(e),
            Ok(cdn) => match text_or_error(stream, live.huya_protocol.suffix_key_text()) {
                Err(e) => Err(e),
                Ok(suffix) => match text_or_error(stream, live.huya_protocol.url_key_text()) {
                    Err(e) => Err(e),
                    Ok(base) => Ok(
                        StreamFields {
                            name: live.stream_name(name),
                            cdn,
                            suffix,
                            base: secured(base),
                        },
                    ),
                },
            },
        },
    }
}

/// The fields of a stream as texts.
struct Fields {
    name: String,
    cdn: String,
    suffix: String,
    base: String,
}

fn read_fields(live: &HuyaLive, stream: &Json) -> (fields: Result<Fields, LiveError>)
    ensures
        match stream_fields(*live, stream@) {
            Ok(f) => {
                &&& fields is Ok
                &&& fields->Ok_0.name@ == f.name
                &&& fields->Ok_0.cdn@ == f.cdn
                &&& fields->Ok_0.suffix@ == f.suffix
                &&& fields->Ok_0.base@ == f.base
            },
            Err(e) => fields is Err && tells(fields->Err_0, e),
        },
{
    let name: String = match json_str(stream, "sStreamName") {
        Ok(text) => live.get_stream_name(text),
        Err(e) => return Err(e),
    };
    let cdn: String = match json_str(stream, "sCdnType") {
        Ok(text) => text.to_owned(),
        Err(e) => return Err(e),
    };
    let suffix: String = match json_str(stream, live.huya_protocol.suffix_key()) {
        Ok(text) => text.to_owned(),
        Err(e) => return Err(e),
    };
    proof {
        reveal_strlit("http://");
    }
    let base: String = match json_str(stream, live.huya_protocol.url_key()) {
        Ok(text) => text_replaced(text, "http://", "https://"),
        Err(e) => return Err(e),
    };
    Ok(Fields { name, cdn, suffix, base })
}

/// A stream that may be taken.
pub open spec fn offered(stream: JsonData) -> bool {
    i64_field(stream, "iWebPriorityRate"@) >= 0
}

/// The first stream from `i` on that may be taken.
pub open spec fn first_offered(streams: Seq<JsonData>, i: int) -> Option<int>
    decreases streams.len() - i,
{
    if i < 0 || i >= streams.len() {
        None
    } else if offered(streams[i]) {
        Some(i)
    } else {
        first_offered(streams, i + 1)
    }
}

/// Where the signed query comes from: the first stream that may be taken decides.
pub open spec fn source_of(
    live: HuyaLive,
    stream: JsonData,
    source: Result<Option<AnticodeSource>, LiveError>,
) -> bool {
    let uid = u64_field(stream, "lPresenterUid"@);
    match stream_fields(live, stream) {
        Err(e) => source is Err && tells(source->Err_0, e),
        Ok(fields) => if live.uses_wup() {
            source matches Ok(Some(AnticodeSource::Wup { stream_name, uid: user })) && stream_name@
                == fields.name && user == uid
        } else {
            match text_or_error(stream, live.huya_protocol.anticode_key_text()) {
                Err(e) => source is Err && tells(source->Err_0, e),
                Ok(code) => if live.huya_mobile_api && live.huya_imgplus {
                    source matches Ok(Some(AnticodeSource::Raw(text))) && text@ == code
                } else {
                    source matches Ok(
                        Some(AnticodeSource::Page { stream_name, anti_code, uid: user }),
                    ) && stream_name@ == fields.name && anti_code@ == code && user == uid
                },
            }
        },
    }
}

// ---------------------------------------------------------------------------
// The order of the streams
// ---------------------------------------------------------------------------

/// `item` put into streams in falling order, behind those that are as good.
pub open spec fn placed<T>(sorted: Seq<Ranked<T>>, item: Ranked<T>) -> Seq<Ranked<T>>
    decreases sorted.len(),
{
    if sorted.len() == 0 || sorted.last().priority >= item.priority {
        sorted.push(item)
    } else {
        placed(sorted.drop_last(), item).push(sorted.last())
    }
}

/// The streams in falling order of their priority; those that are as good keep their order.
pub open spec fn in_rank<T>(items: Seq<Ranked<T>>) -> Seq<Ranked<T>>
    decreases items.len(),
{
    if items.len() == 0 {
        items
    } else {
        placed(in_rank(items.drop_last()), items.last())
    }
}

/// A delivery network that is not used.
pub open spec fn is_own_network(cdn: Seq<char>) -> bool {
    cdn == "HY"@ || cdn == "HUYA"@ || cdn == "HYZJ"@
}

/// The streams that are not on networks that are not used: network and address.
pub open spec fn usable(items: Seq<Ranked<Seq<char>>>) -> Seq<(Seq<char>, Seq<char>)>
    decreases items.len(),
{
    if items.len() == 0 {
        Seq::empty()
    } else {
        let rest = usable(items.drop_last());
        if is_own_network(items.last().cdn) {
            rest
        } else {
            rest.push((items.last().cdn, items.last().url))
        }
    }
}

/// The address of a stream.
pub open spec fn stream_url(fields: StreamFields, query: Seq<char>) -> Seq<char> {
    fields.base + "/"@ + fields.name + "."@ + fields.suffix + "?"@ + query
}

/// The streams of the first `n` that may be taken, under one query, or the text of the first
/// error.
pub open spec fn gathered(
    live: HuyaLive,
    streams: Seq<JsonData>,
    query: Option<Seq<char>>,
    n: int,
) -> Result<Seq<Ranked<Seq<char>>>, Seq<char>>
    decreases n,
{
    if n <= 0 {
        Ok(Seq::empty())
    } else {
        match gathered(live, streams, query, n - 1) {
            Err(e) => Err(e),
            Ok(before) => if !offered(streams[n - 1]) {
                Ok(before)
            } else {
                match stream_fields(live, streams[n - 1]) {
                    Err(e) => Err(e),
                    Ok(fields) => match query {
                        None => Err("虎牙 anticode 生成失败"@),
                        Some(text) => Ok(
                            before.push(
                                Ranked {
                                    cdn: fields.cdn,
                                    priority: i64_field(streams[n - 1], "iWebPriorityRate"@),
                                    url: stream_url(fields, text),
                                },
                            ),
                        ),
                    },
                }
            },
        }
    }
}

/// The query with the codec that is asked for.
pub open spec fn with_codec(anti_code: Option<Seq<char>>, codec: Seq<char>) -> Option<Seq<char>> {
    match anti_code {
        Some(text) => Some(text + "&codec="@ + codec),
        None => None,
    }
}

/// The addresses of the streams under a signed query, best first, or the text of the error.
pub open spec fn listed_urls(
    live: HuyaLive,
    streams: Seq<JsonData>,
    anti_code: Option<Seq<char>>,
) -> Result<Seq<(Seq<char>, Seq<char>)>, Seq<char>> {
    match gathered(
        live,
        streams,
        with_codec(anti_code, live.huya_codec@),
        streams.len() as int,
    ) {
        Err(e) => Err(e),
        Ok(items) => Ok(usable(in_rank(items))),
    }
}

/// Where `placed` puts an item.
proof fn placed_is_insert<T>(sorted: Seq<Ranked<T>>, item: Ranked<T>, at: int)
    requires
        0 <= at <= sorted.len(),
        at > 0 ==> sorted[at - 1].priority >= item.priority,
        forall|k: int| at <= k < sorted.len() ==> (#[trigger] sorted[k]).priority < item.priority,
    ensures
        placed(sorted, item) == sorted.insert(at, item),
    decreases sorted.len(),
{
    if at == sorted.len() {
        assert(sorted.insert(at, item) =~= sorted.push(item));
    } else {
        let front = sorted.drop_last();
        assert forall|k: int| at <= k < front.len() implies (#[trigger] front[k]).priority
            < item.priority by {
            assert(front[k] == sorted[k]);
        }
        assert(at > 0 ==> front[at - 1] == sorted[at - 1]);
        placed_is_insert(front, item, at);
        assert(sorted.insert(at, item) =~= front.insert(at, item).push(sorted.last()));
    }
}

fn place(sorted: &mut Vec<Ranked<String>>, item: Ranked<String>)
    ensures
        ranked_of(final(sorted)@) == placed(ranked_of(old(sorted)@), item@),
{
    let mut at: usize = sorted.len();
    while at > 0 && sorted[at - 1].priority < item.priority
        invariant
            at <= sorted.len(),
            sorted@ == old(sorted)@,
            forall|k: int|
                at <= k < sorted@.len() ==> (#[trigger] ranked_of(sorted@)[k]).priority
                    < item.priority,
        decreases at,
    {
        assert(ranked_of(sorted@)[at - 1].priority < item.priority);
        at -= 1;
    }
    proof {
        placed_is_insert(ranked_of(sorted@), item@, at as int);
    }
    sorted.insert(at, item);
    assert(ranked_of(sorted@) =~= ranked_of(old(sorted)@).insert(at as int, item@));
}

impl HuyaLive {
    /// Where the signed query comes from; nothing where no stream may be taken.
    pub fn anticode_source(&self, streams: &Vec<Json>) -> (source: Result<
        Option<AnticodeSource>,
        LiveError,
    >)
        ensures
            match first_offered(values_of(streams@), 0) {
                None => source matches Ok(None),
                Some(i) => source_of(*self, values_of(streams@)[i], source),
            },
    {
        let ghost values = values_of(streams@);
        proof {
            values_at(streams@);
        }
        let mut i: usize = 0;
        while i < streams.len()
            invariant
                i <= streams.len(),
                values.len() == streams@.len(),
                forall|k: int| 0 <= k < values.len() ==> #[trigger] values[k] == streams@[k]@,
                first_offered(values, 0) == first_offered(values, i as int),
                values == values_of(streams@),
            decreases streams.len() - i,
        {
            assert(values[i as int] == streams@[i as int]@);
            let stream: &Json = &streams[i];
            if stream.i64_or_zero("iWebPriorityRate") >= 0 {
                let fields: Fields = match read_fields(self, stream) {
                    Ok(fields) => fields,
                    Err(e) => return Err(e),
                };
                let uid: u64 = stream.u64_or_zero("lPresenterUid");
                if self.should_use_wup() {
                    return Ok(Some(AnticodeSource::Wup { stream_name: fields.name, uid }));
                }
                let code: String = match json_str(stream, self.huya_protocol.anticode_key()) {
                    Ok(text) => text.to_owned(),
                    Err(e) => return Err(e),
                };
                if self.huya_mobile_api && self.huya_imgplus {
                    return Ok(Some(AnticodeSource::Raw(code)));
                }
                return Ok(
                    Some(
                        AnticodeSource::Page { stream_name: fields.name, anti_code: code, uid },
                    ),
                );
            }
            i += 1;
        }
        Ok(None)
    }

    fn make_url(fields: &Fields, query: &str) -> (url: String)
        ensures
            url@ == fields.base@ + "/"@ + fields.name@ + "."@ + fields.suffix@ + "?"@ + query@,
    {
        let mut url: String = fields.base.clone();
        url.append("/");
        url.append(fields.name.as_str());
        url.append(".");
        url.append(fields.suffix.as_str());
        url.append("?");
        url.append(query);
        url
    }

    /// The addresses of the streams under a signed query, best first.
    pub fn build_stream_urls(&self, streams: &Vec<Json>, anti_code: Option<&str>) -> (urls: Result<
        Vec<(String, String)>,
        LiveError,
    >)
        ensures
            match listed_urls(
                *self,
                values_of(streams@),
                match anti_code {
                    Some(text) => Some(text@),
                    None => None,
                },
            ) {
                Err(e) => urls is Err && tells(urls->Err_0, e),
                Ok(pairs) => urls is Ok && pairs_of(urls->Ok_0@) == pairs,
            },
    {
        let query: Option<String> = match anti_code {
            Some(text) => {
                let mut whole: String = text.to_owned();
                whole.append("&codec=");
                whole.append(self.huya_codec.as_str());
                Some(whole)
            },
            None => None,
        };
        let ghost view = with_codec(
            match anti_code {
                Some(text) => Some(text@),
                None => None,
            },
            self.huya_codec@,
        );
        let ghost values = values_of(streams@);
        proof {
            values_at(streams@);
        }
        let mut sorted: Vec<Ranked<String>> = Vec::new();
        let mut i: usize = 0;
        let ghost mut items: Seq<Ranked<Seq<char>>> = Seq::empty();
        assert(ranked_of(sorted@) =~= in_rank(items));
        while i < streams.len()
            invariant
                i <= streams.len(),
                view == match query {
                    Some(text) => Some(text@),
                    None => None,
                },
                view == with_codec(
                    match anti_code {
                        Some(text) => Some(text@),
                        None => None,
                    },
                    self.huya_codec@,
                ),
                values == values_of(streams@),
                values.len() == streams@.len(),
                forall|k: int| 0 <= k < values.len() ==> #[trigger] values[k] == streams@[k]@,
                gathered(*self, values, view, i as int) == Ok::<
                    Seq<Ranked<Seq<char>>>,
                    Seq<char>,
                >(items),
                ranked_of(sorted@) == in_rank(items),
            decreases streams.len() - i,
        {
            let stream: &Json = &streams[i];
            assert(values[i as int] == stream@);
            let priority: i64 = stream.i64_or_zero("iWebPriorityRate");
            if priority >= 0 {
                let fields: Fields = match read_fields(self, stream) {
                    Ok(fields) => fields,
                    Err(e) => {
                        proof {
                            gathered_error_stays(*self, values, view, i + 1, streams@.len() as int);
                        }
                        return Err(e);
                    },
                };
                let url: String = match &query {
                    Some(text) => Self::make_url(&fields, text.as_str()),
                    None => {
                        proof {
                            gathered_error_stays(*self, values, view, i + 1, streams@.len() as int);
                        }
                        return Err(LiveError::custom("虎牙 anticode 生成失败"));
                    },
                };
                let item = Ranked { cdn: fields.cdn, priority, url };
                proof {
                    let more = items.push(item@);
                    assert(more.drop_last() =~= items);
                    items = more;
                }
                place(&mut sorted, item);
            }
            i += 1;
        }
        let mut urls: Vec<(String, String)> = Vec::new();
        let mut n: usize = 0;
        let ghost ranked = ranked_of(sorted@);
        assert(ranked.take(0) =~= Seq::<Ranked<Seq<char>>>::empty());
        assert(pairs_of(urls@) =~= usable(ranked.take(0)));
        while n < sorted.len()
            invariant
                n <= sorted.len(),
                ranked == ranked_of(sorted@),
                pairs_of(urls@) == usable(ranked.take(n as int)),
            decreases sorted.len() - n,
        {
            let ghost upto = ranked.take(n + 1);
            assert(upto.drop_last() =~= ranked.take(n as int));
            assert(upto.last() == sorted@[n as int]@);
            let cdn: &str = sorted[n].cdn.as_str();
            if !(same_text(cdn, "HY") || same_text(cdn, "HUYA") || same_text(cdn, "HYZJ")) {
                let ghost before = pairs_of(urls@);
                urls.push((sorted[n].cdn.clone(), sorted[n].url.clone()));
                assert(pairs_of(urls@) =~= before.push((upto.last().cdn, upto.last().url)));
            }
            n += 1;
        }
        assert(ranked.take(ranked.len() as int) =~= ranked);
        Ok(urls)
    }
}

/// An error in the first streams is the error of all.
proof fn gathered_error_stays(
    live: HuyaLive,
    streams: Seq<JsonData>,
    query: Option<Seq<char>>,
    n: int,
    m: int,
)
    requires
        gathered(live, streams, query, n) is Err,
        n <= m,
    ensures
        gathered(live, streams, query, m) == gathered(live, streams, query, n),
    decreases m - n,
{
    if n < m {
        gathered_error_stays(live, streams, query, n, m - 1);
    }
}

// ---------------------------------------------------------------------------
// The stream that is recorded
// ---------------------------------------------------------------------------

/// The first address from `i` on that is on the network `cdn`.
pub open spec fn on_network(
    urls: Seq<(Seq<char>, Seq<char>)>,
    cdn: Seq<char>,
    i: int,
) -> Option<Seq<char>>
    decreases urls.len() - i,
{
    if i < 0 || i >= urls.len() {
        None
    } else if urls[i].0 == cdn {
        Some(urls[i].1)
    } else {
        on_network(urls, cdn, i + 1)
    }
}

/// The address that is taken: the first on the network that is asked for, else the first.
pub open spec fn chosen_url(urls: Seq<(Seq<char>, Seq<char>)>, cdn: Seq<char>) -> Option<
    Seq<char>,
> {
    if cdn.len() > 0 && on_network(urls, cdn, 0) is Some {
        on_network(urls, cdn, 0)
    } else if urls.len() > 0 {
        Some(urls[0].1)
    } else {
        None
    }
}

/// A bit rate that a room offers.
pub open spec fn bitrate_of(info: JsonData, max_bitrate: u32) -> u32 {
    low32(
        match field(info, "iBitRate"@) {
            Some(inner) => match u64_in(inner) {
                Some(n) => n,
                None => max_bitrate as u64,
            },
            None => max_bitrate as u64,
        },
    )
}

/// The highest of the first `n` bit rates that is not above the limit.
pub open spec fn best_ratio(
    bitrates: Seq<JsonData>,
    max_bitrate: u32,
    limit: u32,
    n: int,
) -> Option<u32>
    decreases n,
{
    if n <= 0 {
        None
    } else {
        let before = best_ratio(bitrates, max_bitrate, limit, n - 1);
        let rate = bitrate_of(bitrates[n - 1], max_bitrate);
        if rate > limit {
            before
        } else {
            match before {
                Some(best) if best > rate => Some(best),
                _ => Some(rate),
            }
        }
    }
}

/// An address with the bit rate that is asked for.
pub open spec fn with_ratio(
    url: Seq<char>,
    bitrates: Seq<JsonData>,
    max_bitrate: u32,
    limit: u32,
) -> Seq<char> {
    if limit == 0 || contains(url, "&ratio"@) {
        url
    } else {
        match best_ratio(bitrates, max_bitrate, limit, bitrates.len() as int) {
            Some(ratio) if ratio > 0 => url + "&ratio="@ + decimal(ratio as nat),
            _ => url,
        }
    }
}

/// The address that is recorded: the one that is taken, with the bit rate that is asked for.
pub open spec fn selected_url(
    live: HuyaLive,
    urls: Seq<(Seq<char>, Seq<char>)>,
    bitrates: Seq<JsonData>,
    max_bitrate: u32,
) -> Option<Seq<char>> {
    match chosen_url(urls, live.huya_cdn@) {
        None => None,
        Some(chosen) => Some(with_ratio(chosen, bitrates, max_bitrate, live.huya_max_ratio)),
    }
}

fn read_bitrate(info: &Json, max_bitrate: u32) -> (rate: u32)
    ensures
        rate == bitrate_of(info@, max_bitrate),
{
    let n: u64 = match info.get("iBitRate") {
        Some(inner) => match inner.as_u64() {
            Some(n) => n,
            None => max_bitrate as u64,
        },
        None => max_bitrate as u64,
    };
    (n % 0x1_0000_0000) as u32
}

impl HuyaLive {
    /// Adds the highest bit rate within the limit to an address.
    pub fn add_ratio(&self, url: &str, bitrate_info: &Vec<Json>, max_bitrate: u32) -> (text: String)
        ensures
            text@ == with_ratio(
                url@,
                values_of(bitrate_info@),
                max_bitrate,
                self.huya_max_ratio,
            ),
    {
        if self.huya_max_ratio == 0 || text_contains(url, "&ratio") {
            return url.to_owned();
        }
        let ghost values = values_of(bitrate_info@);
        proof {
            values_at(bitrate_info@);
        }
        let mut best: Option<u32> = None;
        let mut n: usize = 0;
        while n < bitrate_info.len()
            invariant
                n <= bitrate_info.len(),
                values.len() == bitrate_info@.len(),
                forall|k: int|
                    0 <= k < values.len() ==> #[trigger] values[k] == bitrate_info@[k]@,
                best == best_ratio(values, max_bitrate, self.huya_max_ratio, n as int),
            decreases bitrate_info.len() - n,
        {
            assert(values[n as int] == bitrate_info@[n as int]@);
            let rate: u32 = read_bitrate(&bitrate_info[n], max_bitrate);
            if rate <= self.huya_max_ratio {
                best = match best {
                    Some(b) => if b > rate {
                        Some(b)
                    } else {
                        Some(rate)
                    },
                    None => Some(rate),
                };
            }
            n += 1;
        }
        let mut text: String = url.to_owned();
        match best {
            Some(ratio) => {
                if ratio > 0 {
                    text.append("&ratio=");
                    push_decimal(&mut text, ratio as u64);
                }
            },
            None => {},
        }
        text
    }

    /// The address that is recorded.
    pub fn select_stream_url(
        &self,
        stream_urls: &Vec<(String, String)>,
        profile: &HuyaRoomProfile,
    ) -> (url: Result<String, LiveError>)
        ensures
            match selected_url(
                *self,
                pairs_of(stream_urls@),
                values_of(profile.bitrate_info@),
                profile.max_bitrate,
            ) {
                None => url is Err && tells(url->Err_0, "虎牙可用 CDN 为空"@),
                Some(selected) => url is Ok && url->Ok_0@ == selected,
            },
    {
        if stream_urls.len() == 0 {
            return Err(LiveError::custom("虎牙可用 CDN 为空"));
        }
        assert(pairs_of(stream_urls@)[0] == (stream_urls@[0].0@, stream_urls@[0].1@));
        let mut chosen: usize = 0;
        if !self.huya_cdn.as_str().is_empty() {
            let mut i: usize = 0;
            let mut found: bool = false;
            while i < stream_urls.len() && !found
                invariant
                    i <= stream_urls.len(),
                    stream_urls@.len() > 0,
                    chosen < stream_urls@.len(),
                    !found ==> chosen == 0 && on_network(pairs_of(stream_urls@), self.huya_cdn@, 0)
                        == on_network(pairs_of(stream_urls@), self.huya_cdn@, i as int),
                    found ==> on_network(pairs_of(stream_urls@), self.huya_cdn@, 0) == Some(
                        stream_urls@[chosen as int].1@,
                    ),
                decreases stream_urls.len() - i,
            {
                assert(pairs_of(stream_urls@)[i as int] == (
                    stream_urls@[i as int].0@,
                    stream_urls@[i as int].1@,
                ));
                if same_text(stream_urls[i].0.as_str(), self.huya_cdn.as_str()) {
                    chosen = i;
                    found = true;
                }
                i += 1;
            }
        }
        Ok(
            self.add_ratio(
                stream_urls[chosen].1.as_str(),
                &profile.bitrate_info,
                profile.max_bitrate,
            ),
        )
    }
}

} // verus!
