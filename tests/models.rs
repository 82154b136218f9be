use bili::items::{create_large_shirt, Size};
use bili::models::api_url;
use bili::text::{normalization_file_name, parse_u64, strip_separators, to_decimal};
use bili::{
    BasicView, Clarity, DownloadInfo, DownloadParam, DurlInfo, Error, GetDownloadInfoParam, Owner,
    PackInfo, Protocol, SeasonList, VideoId, VideoMetadata, View,
};

fn pairs(v: &[(&str, &str)]) -> Vec<(String, String)> {
    v.iter().map(|(a, b)| (a.to_string(), b.to_string())).collect()
}

fn owner() -> Owner {
    Owner { uid: 7, name: "up".to_owned(), face_url: "f".to_owned() }
}

fn view(display: Option<bool>, season: Option<u64>) -> View {
    View {
        aid: 1,
        bvid: "BV1".to_owned(),
        cid: 2,
        title: "t".to_owned(),
        owner: owner(),
        pic_url: "p".to_owned(),
        is_season_display: display,
        season_id: season,
    }
}

#[test]
fn query_for_numeric_id() {
    let p = GetDownloadInfoParam { id: VideoId::AID(170001), cid: 279786, clarity: Clarity::High };
    assert_eq!(
        p.get_query(),
        pairs(&[("fnver", "0"), ("avid", "170001"), ("cid", "279786"), ("fnval", "1"), ("qn", "112")])
    );
}

#[test]
fn query_for_code_id() {
    let p = GetDownloadInfoParam { id: VideoId::BVID("BV1qJ4m1Y71G".to_owned()), cid: 0, clarity: Clarity::Low };
    assert_eq!(
        p.get_query(),
        pairs(&[("fnver", "0"), ("bvid", "BV1qJ4m1Y71G"), ("cid", "0"), ("fnval", "1"), ("qn", "16")])
    );
    assert_eq!(Clarity::Default.code(), 16);
}

#[test]
fn id_text_and_query_pair() {
    assert_eq!(VideoId::AID(42).to_string(), "42");
    assert_eq!(VideoId::BVID("BVx".to_owned()).to_string(), "BVx");
    assert_eq!(VideoId::AID(9).query_pair(), ("aid".to_owned(), "9".to_owned()));
    assert_eq!(VideoId::BVID("BVx".to_owned()).query_pair(), ("bvid".to_owned(), "BVx".to_owned()));
}

#[test]
fn prefixes_and_urls() {
    assert_eq!(Protocol::HTTP.get_prefix(), "http://");
    assert_eq!(Protocol::HTTPS.get_prefix(), "https://");
    assert_eq!(Protocol::default(), Protocol::HTTPS);
    assert_eq!(api_url(Protocol::HTTPS, "api.example.com", "/x/player/pagelist"), "https://api.example.com/x/player/pagelist");
}

#[test]
fn envelope_success() {
    let p = PackInfo { code: 0, message: "0".to_owned(), data: Some(5u32) };
    assert_eq!(p.as_result(), Ok(5));
}

#[test]
fn envelope_api_error() {
    let p: PackInfo<u32> = PackInfo { code: -404, message: "nothing here".to_owned(), data: Some(1) };
    assert_eq!(p.as_result(), Err(Error::APIErr(-404, "nothing here".to_owned())));
}

#[test]
fn envelope_without_data() {
    let p: PackInfo<u32> = PackInfo { code: 0, message: "0".to_owned(), data: None };
    assert_eq!(p.as_result(), Err(Error::UnexpectedResp));
}

#[test]
fn exactly_one_media_url() {
    let one = DownloadInfo { durl: vec![DurlInfo { size: 10, url: "u".to_owned() }] };
    let d = one.single().unwrap();
    assert_eq!((*d.size(), d.url().as_str()), (10, "u"));
    let none = DownloadInfo { durl: vec![] };
    assert!(matches!(none.single(), Err(Error::UnexpectedResp)));
    let two = DownloadInfo {
        durl: vec![DurlInfo { size: 1, url: "a".to_owned() }, DurlInfo { size: 2, url: "b".to_owned() }],
    };
    assert!(matches!(two.single(), Err(Error::UnexpectedResp)));
}

#[test]
fn first_page_of_video() {
    let pages = vec![VideoMetadata { cid: 3, title: "a".to_owned() }, VideoMetadata { cid: 4, title: "b".to_owned() }];
    let m = VideoMetadata::first_page(pages).unwrap();
    assert_eq!(*m.cid(), 3);
    assert_eq!(m.title(), "a");
    assert!(matches!(VideoMetadata::first_page(vec![]), Err(Error::UnexpectedResp)));
}

#[test]
fn season_membership() {
    assert_eq!(view(Some(true), Some(88)).shown_season(), Some(88));
    assert_eq!(view(Some(false), Some(88)).shown_season(), None);
    assert_eq!(view(None, Some(88)).shown_season(), None);
    assert_eq!(view(Some(true), None).shown_season(), None);
}

#[test]
fn season_from_groups() {
    let ep = |n: u64| BasicView { aid: n, bvid: format!("BV{}", n), cid: n * 10, title: format!("ep{}", n) };
    let list = SeasonList::from_groups(5, "S".to_owned(), owner(), vec![vec![ep(1), ep(2)], vec![ep(3)]]).unwrap();
    assert_eq!(*list.season_id(), 5);
    assert_eq!(list.season_name(), "S");
    assert_eq!(list.sections().len(), 2);
    assert_eq!(*list.sections()[1].cid(), 20);
    assert_eq!(list.sections()[0].bvid(), "BV1");
    assert!(matches!(SeasonList::from_groups(5, "S".to_owned(), owner(), vec![]), Err(Error::UnexpectedResp)));
}

#[test]
fn effective_settings() {
    let info = DurlInfo { size: 1000, url: "u".to_owned() };
    let p = DownloadParam { info: info.clone(), chunk_size: None, conn_pool: None };
    assert_eq!(p.effective_chunk_size(), 1000);
    assert_eq!(p.effective_pool_limit(), 1);
    let p = DownloadParam { info: info.clone(), chunk_size: Some(4), conn_pool: Some(0) };
    assert_eq!(p.effective_chunk_size(), 4);
    assert_eq!(p.effective_pool_limit(), 1);
    let p = DownloadParam { info, chunk_size: Some(4), conn_pool: Some(8) };
    assert_eq!(p.effective_pool_limit(), 8);
}

#[test]
fn file_names_are_cleaned() {
    assert_eq!(normalization_file_name("  a/b\\c  ".to_owned()), "abc");
    assert_eq!(normalization_file_name("\t月光 / moon\n".to_owned()), "月光  moon");
    assert_eq!(normalization_file_name("   ".to_owned()), "");
    assert_eq!(strip_separators(" x/y "), " xy ");
}

#[test]
fn decimal_rendering() {
    assert_eq!(to_decimal(0), "0");
    assert_eq!(to_decimal(10), "10");
    assert_eq!(to_decimal(u64::MAX), u64::MAX.to_string());
}

#[test]
fn large_shirt() {
    let s = create_large_shirt("red".to_owned());
    assert_eq!(s.color, "red");
    assert_eq!(s.size, Size::Large);
}

#[test]
fn ids_from_text() {
    assert!(matches!(VideoId::from_text("170001"), VideoId::AID(170001)));
    assert!(matches!(VideoId::from_text("+7"), VideoId::AID(7)));
    assert!(matches!(VideoId::from_text("18446744073709551615"), VideoId::AID(u64::MAX)));
    match VideoId::from_text("18446744073709551616") {
        VideoId::BVID(s) => assert_eq!(s, "18446744073709551616"),
        other => panic!("unexpected {:?}", other),
    }
    match VideoId::from_text("BV13m421J7fM") {
        VideoId::BVID(s) => assert_eq!(s, "BV13m421J7fM"),
        other => panic!("unexpected {:?}", other),
    }
    assert!(matches!(VideoId::from_text(""), VideoId::BVID(_)));
    assert!(matches!(VideoId::from_text("+"), VideoId::BVID(_)));
    assert!(matches!(VideoId::from_text("12a"), VideoId::BVID(_)));
}

#[test]
fn parse_matches_std() {
    for s in ["0", "007", "+0", "-1", " 1", "1 ", "99999999999999999999", "18446744073709551615", "++1", "٣"] {
        assert_eq!(parse_u64(s), s.parse::<u64>().ok(), "input {:?}", s);
    }
}
