//! The data the API hands out, and the pure steps that turn its answers
//! into the values the download engine needs.
use crate::error::Error;
use crate::text::{decimal, digits_value, is_u64_text, parse_u64, to_decimal, unsigned_body};
use vstd::prelude::*;
use vstd::string::StringExecFns;
use vstd::view::View as _;

verus! {

/// A video, named by its numeric id or by its string code.
#[derive(Debug, Clone)]
pub enum VideoId {
    AID(u64),
    BVID(String),
}

/// The text of an id: the number in decimal, or the code itself.
pub open spec fn id_text(id: VideoId) -> Seq<char> {
    match id {
        VideoId::AID(n) => decimal(n as nat),
        VideoId::BVID(s) => s@,
    }
}

impl VideoId {
    /// The id as text, as it appears in file names and messages.
    pub fn to_string(&self) -> (r: String)
        ensures
            r@ == id_text(*self),
    {
        match self {
            VideoId::AID(n) => to_decimal(*n),
            VideoId::BVID(s) => s.clone(),
        }
    }

    /// Reads an id given as text: a number is a numeric id, anything else
    /// is a string code.
    pub fn from_text(s: &str) -> (r: VideoId)
        ensures
            is_u64_text(s@) ==> r == VideoId::AID(digits_value(unsigned_body(s@)) as u64),
            !is_u64_text(s@) ==> r is BVID && id_text(r) == s@,
    {
        match parse_u64(s) {
            Some(n) => VideoId::AID(n),
            None => VideoId::BVID(String::from_str(s)),
        }
    }

    /// The query parameter that names this video: `aid` with the number,
    /// or `bvid` with the code.
    pub fn query_pair(&self) -> (r: (String, String))
        ensures
            r.0@ == (if self is AID {
                "aid"@
            } else {
                "bvid"@
            }),
            r.1@ == id_text(*self),
    {
        match self {
            VideoId::AID(n) => (String::from_str("aid"), to_decimal(*n)),
            VideoId::BVID(s) => (String::from_str("bvid"), s.clone()),
        }
    }
}

/// The requested picture quality.
#[derive(Debug, Clone, Copy, PartialEq, Eq, Structural)]
pub enum Clarity {
    High,
    Low,
    Default,
}

/// The platform's numeric code for a quality level.
pub open spec fn quality_code(c: Clarity) -> u64 {
    match c {
        Clarity::High => 112,
        Clarity::Low => 16,
        Clarity::Default => 16,
    }
}

impl Clarity {
    /// The platform's numeric code for this quality level.
    pub fn code(&self) -> (r: u64)
        ensures
            r == quality_code(*self),
    {
        match self {
            Clarity::High => 112,
            Clarity::Low => 16,
            Clarity::Default => 16,
        }
    }
}

/// The scheme the API is reached with.
#[derive(Debug, Clone, Copy, PartialEq, Eq, Structural)]
pub enum Protocol {
    HTTP,
    HTTPS,
}

impl Default for Protocol {
    fn default() -> (r: Protocol)
        ensures
            r == Protocol::HTTPS,
    {
        Protocol::HTTPS
    }
}

/// The URL prefix of a scheme.
pub open spec fn prefix_text(p: Protocol) -> Seq<char> {
    match p {
        Protocol::HTTP => "http://"@,
        Protocol::HTTPS => "https://"@,
    }
}

impl Protocol {
    /// The URL prefix of the scheme, `http://` or `https://`.
    pub fn get_prefix(&self) -> (r: &'static str)
        ensures
            r@ == prefix_text(*self),
    {
        match self {
            Protocol::HTTP => "http://",
            Protocol::HTTPS => "https://",
        }
    }
}

/// The URL of an API endpoint: scheme prefix, host, then path.
pub fn api_url(protocol: Protocol, host: &str, path: &str) -> (r: String)
    ensures
        r@ == prefix_text(protocol) + host@ + path@,
{
    let mut s = String::from_str(protocol.get_prefix());
    s.append(host);
    s.append(path);
    s
}

/// The uploader of a video.
#[derive(Debug, Clone)]
pub struct Owner {
    pub uid: u64,
    pub name: String,
    pub face_url: String,
}

impl Owner {

    pub fn uid(&self) -> (r: &u64)
        ensures
            *r == self.uid,
    {
        &self.uid
    }

    pub fn name(&self) -> (r: &String)
        ensures
            *r == self.name,
    {
        &self.name
    }

    pub fn face_url(&self) -> (r: &String)
        ensures
            *r == self.face_url,
    {
        &self.face_url
    }
}

/// One entry of a season: a video and the page id of its media.
#[derive(Debug, Clone)]
pub struct BasicView {
    pub aid: u64,
    pub bvid: String,
    pub cid: u64,
    pub title: String,
}

impl BasicView {

    pub fn aid(&self) -> (r: &u64)
        ensures
            *r == self.aid,
    {
        &self.aid
    }

    pub fn bvid(&self) -> (r: &String)
        ensures
            *r == self.bvid,
    {
        &self.bvid
    }

    pub fn cid(&self) -> (r: &u64)
        ensures
            *r == self.cid,
    {
        &self.cid
    }

    pub fn title(&self) -> (r: &String)
        ensures
            *r == self.title,
    {
        &self.title
    }
}

/// The full description of a video, with its season membership.
#[derive(Debug, Clone)]
pub struct View {
    pub aid: u64,
    pub bvid: String,
    pub cid: u64,
    pub title: String,
    pub owner: Owner,
    pub pic_url: String,
    pub is_season_display: Option<bool>,
    pub season_id: Option<u64>,
}

impl View {

    pub fn aid(&self) -> (r: &u64)
        ensures
            *r == self.aid,
    {
        &self.aid
    }

    pub fn bvid(&self) -> (r: &String)
        ensures
            *r == self.bvid,
    {
        &self.bvid
    }

    pub fn cid(&self) -> (r: &u64)
        ensures
            *r == self.cid,
    {
        &self.cid
    }

    pub fn title(&self) -> (r: &String)
        ensures
            *r == self.title,
    {
        &self.title
    }

    pub fn owner(&self) -> (r: &Owner)
        ensures
            *r == self.owner,
    {
        &self.owner
    }

    pub fn pic_url(&self) -> (r: &String)
        ensures
            *r == self.pic_url,
    {
        &self.pic_url
    }

    pub fn is_season_display(&self) -> (r: &Option<bool>)
        ensures
            *r == self.is_season_display,
    {
        &self.is_season_display
    }

    pub fn season_id(&self) -> (r: &Option<u64>)
        ensures
            *r == self.season_id,
    {
        &self.season_id
    }

    /// The season this video belongs to: its season id when the video is
    /// shown as part of a season, otherwise none.
    pub fn shown_season(&self) -> (r: Option<u64>)
        ensures
            r == (if self.is_season_display == Some(true) {
                self.season_id
            } else {
                None
            }),
    {
        match self.is_season_display {
            Some(true) => self.season_id,
            _ => None,
        }
    }
}

/// A season: its id and name, its uploader, and its episodes in order.
#[derive(Debug, Clone)]
pub struct SeasonList {
    pub season_id: u64,
    pub season_name: String,
    pub owner: Owner,
    pub sections: Vec<BasicView>,
}

impl SeasonList {

    /// Builds a season from the groups of episodes the API lists: the
    /// episodes are those of the first group, and a season without any
    /// group is an unexpected answer.
    pub fn from_groups(
        season_id: u64,
        season_name: String,
        owner: Owner,
        groups: Vec<Vec<BasicView>>,
    ) -> (r: Result<SeasonList, Error>)
        ensures
            groups@.len() == 0 <==> r == Err::<SeasonList, Error>(Error::UnexpectedResp),
            groups@.len() > 0 ==> r == Ok::<SeasonList, Error>(
                SeasonList { season_id, season_name, owner, sections: groups@[0] },
            ),
    {
        let mut groups = groups;
        if groups.len() == 0 {
            Err(Error::UnexpectedResp)
        } else {
            let first = groups.swap_remove(0);
            Ok(SeasonList { season_id, season_name, owner, sections: first })
        }
    }

    pub fn season_id(&self) -> (r: &u64)
        ensures
            *r == self.season_id,
    {
        &self.season_id
    }

    pub fn season_name(&self) -> (r: &String)
        ensures
            *r == self.season_name,
    {
        &self.season_name
    }

    pub fn owner(&self) -> (r: &Owner)
        ensures
            *r == self.owner,
    {
        &self.owner
    }

    pub fn sections(&self) -> (r: &Vec<BasicView>)
        ensures
            *r == self.sections,
    {
        &self.sections
    }
}

/// One page of a video: the page id of its media and its title.
#[derive(Debug, Clone)]
pub struct VideoMetadata {
    pub cid: u64,
    pub title: String,
}

impl VideoMetadata {

    pub fn cid(&self) -> (r: &u64)
        ensures
            *r == self.cid,
    {
        &self.cid
    }

    pub fn title(&self) -> (r: &String)
        ensures
            *r == self.title,
    {
        &self.title
    }

    /// The basic information of a video is its first page; a video
    /// without pages is an unexpected answer.
    pub fn first_page(pages: Vec<VideoMetadata>) -> (r: Result<VideoMetadata, Error>)
        ensures
            pages@.len() == 0 <==> r == Err::<VideoMetadata, Error>(Error::UnexpectedResp),
            pages@.len() > 0 ==> r == Ok::<VideoMetadata, Error>(pages@[0]),
    {
        let mut pages = pages;
        if pages.len() == 0 {
            Err(Error::UnexpectedResp)
        } else {
            Ok(pages.swap_remove(0))
        }
    }
}

/// A playable media descriptor: total body size in bytes and media URL.
#[derive(Debug, Clone)]
pub struct DurlInfo {
    pub size: u64,
    pub url: String,
}

impl DurlInfo {

    pub fn size(&self) -> (r: &u64)
        ensures
            *r == self.size,
    {
        &self.size
    }

    pub fn url(&self) -> (r: &String)
        ensures
            *r == self.url,
    {
        &self.url
    }
}

/// The candidate media descriptors the API offers for one request.
#[derive(Debug)]
pub struct DownloadInfo {
    pub durl: Vec<DurlInfo>,
}

impl DownloadInfo {
    pub fn durl(&self) -> (r: &Vec<DurlInfo>)
        ensures
            *r == self.durl,
    {
        &self.durl
    }

    /// The one media descriptor of the answer: zero or several candidates
    /// are both an unexpected answer, never silently chosen between.
    pub fn single(self) -> (r: Result<DurlInfo, Error>)
        ensures
            self.durl@.len() != 1 <==> r == Err::<DurlInfo, Error>(Error::UnexpectedResp),
            self.durl@.len() == 1 ==> r == Ok::<DurlInfo, Error>(self.durl@[0]),
    {
        let mut durl = self.durl;
        if durl.len() == 1 {
            Ok(durl.swap_remove(0))
        } else {
            Err(Error::UnexpectedResp)
        }
    }
}

/// What one download is asked to do: the media, the chunk size (unset:
/// the whole body in one range) and the connection pool size (unset: 1).
#[derive(Debug)]
pub struct DownloadParam {
    pub info: DurlInfo,
    pub chunk_size: Option<u64>,
    pub conn_pool: Option<u8>,
}

/// The chunk size in effect: an unset one means the whole body.
pub open spec fn spec_chunk_size(p: &DownloadParam) -> u64 {
    match p.chunk_size {
        Some(c) => c,
        None => p.info.size,
    }
}

/// The number of requests allowed in flight: unset or zero means one.
pub open spec fn spec_pool_limit(p: &DownloadParam) -> u8 {
    match p.conn_pool {
        Some(k) => if k == 0 {
            1
        } else {
            k
        },
        None => 1,
    }
}

impl DownloadParam {
    pub fn info(&self) -> (r: &DurlInfo)
        ensures
            *r == self.info,
    {
        &self.info
    }

    pub fn chunk_size(&self) -> (r: &Option<u64>)
        ensures
            *r == self.chunk_size,
    {
        &self.chunk_size
    }

    pub fn conn_pool(&self) -> (r: &Option<u8>)
        ensures
            *r == self.conn_pool,
    {
        &self.conn_pool
    }

    /// The chunk size in effect: an unset one means the whole body.
    pub fn effective_chunk_size(&self) -> (r: u64)
        ensures
            r == spec_chunk_size(self),
    {
        match self.chunk_size {
            Some(c) => c,
            None => self.info.size,
        }
    }

    /// The number of requests allowed in flight, never zero: an unset
    /// pool, or one of zero, allows one.
    pub fn effective_pool_limit(&self) -> (r: u8)
        ensures
            r == spec_pool_limit(self),
            r >= 1,
    {
        match self.conn_pool {
            Some(k) => if k == 0 {
                1
            } else {
                k
            },
            None => 1,
        }
    }
}

/// The request for the media of one page of a video at a quality.
#[derive(Debug)]
pub struct GetDownloadInfoParam {
    pub id: VideoId,
    pub cid: u64,
    pub clarity: Clarity,
}

/// The query of a media request, as (key, value) pairs in order.
pub open spec fn spec_query(p: &GetDownloadInfoParam) -> Seq<(Seq<char>, Seq<char>)> {
    seq![
        ("fnver"@, "0"@),
        (if p.id is AID {
            "avid"@
        } else {
            "bvid"@
        }, id_text(p.id)),
        ("cid"@, decimal(p.cid as nat)),
        ("fnval"@, "1"@),
        ("qn"@, decimal(quality_code(p.clarity) as nat)),
    ]
}

/// The view of a list of string pairs.
pub open spec fn pairs_view(v: Seq<(String, String)>) -> Seq<(Seq<char>, Seq<char>)> {
    v.map_values(|p: (String, String)| (p.0@, p.1@))
}

impl GetDownloadInfoParam {
    /// The query string parameters of the media request.
    pub fn get_query(&self) -> (r: Vec<(String, String)>)
        ensures
            pairs_view(r@) == spec_query(self),
    {
        let mut q: Vec<(String, String)> = Vec::new();
        q.push((String::from_str("fnver"), String::from_str("0")));
        match &self.id {
            VideoId::AID(n) => q.push((String::from_str("avid"), to_decimal(*n))),
            VideoId::BVID(s) => q.push((String::from_str("bvid"), s.clone())),
        }
        q.push((String::from_str("cid"), to_decimal(self.cid)));
        q.push((String::from_str("fnval"), String::from_str("1")));
        q.push((String::from_str("qn"), to_decimal(self.clarity.code())));
        assert(pairs_view(q@) =~= spec_query(self));
        q
    }
}

/// The background music of a video.
#[derive(Debug, Clone)]
pub struct BasicMusicInfo {
    pub music_id: String,
    pub title: String,
}

impl BasicMusicInfo {

    pub fn music_id(&self) -> (r: &String)
        ensures
            *r == self.music_id,
    {
        &self.music_id
    }

    pub fn title(&self) -> (r: &String)
        ensures
            *r == self.title,
    {
        &self.title
    }
}

/// The envelope every API answer comes in: a code (zero for success), a
/// message, and the payload.
#[derive(Debug)]
pub struct PackInfo<T> {
    pub code: i32,
    pub message: String,
    pub data: Option<T>,
}

impl<T> PackInfo<T> {
    /// The payload of a successful answer. A non-zero code is an API error
    /// with that code and message; a zero code without payload is an
    /// unexpected answer.
    pub fn as_result(self) -> (r: Result<T, Error>)
        ensures
            self.code != 0 ==> r == Err::<T, Error>(Error::APIErr(self.code, self.message)),
            self.code == 0 && self.data is None ==> r == Err::<T, Error>(Error::UnexpectedResp),
            self.code == 0 && self.data is Some ==> r == Ok::<T, Error>(self.data->0),
    {
        if self.code == 0 {
            match self.data {
                Some(d) => Ok(d),
                None => Err(Error::UnexpectedResp),
            }
        } else {
            Err(Error::APIErr(self.code, self.message))
        }
    }
}

} // verus!
