use r_tftpd::cache::{EntryData, ResponseMeta, State};
use r_tftpd::cache_control::{as_u64, elements, parse_cache_control, split, CacheControl};
use r_tftpd::cache_info::{CacheInfo, ResponseHeaders};
use r_tftpd::errors::Error;
use r_tftpd::path::{fallback_target, get_uri, is_uri, normalize_path, push_component, UriFlags};
use r_tftpd::registry::{gc_select_oldest, Cache, GcProperties};
use r_tftpd::time::{Time, TimeDelta};
use r_tftpd::util::to_lower;

fn no_headers() -> ResponseHeaders {
    ResponseHeaders { cache_control: vec![], date: None, expires: None, last_modified: None, etag: None }
}

#[test]
fn test_to_lower() {
    assert_eq!(to_lower(b"abc").as_slice(), b"abc");
    assert_eq!(to_lower(b"Abc").as_slice(), b"abc");
    assert_eq!(to_lower(b"012").as_slice(), b"012");
}

#[test]
fn test_normalize() {
    assert_eq!(normalize_path(b"/a/b/c").unwrap(), b"a/b/c".to_vec());

    assert_eq!(normalize_path(b"////a/b/c").unwrap(), b"a/b/c".to_vec());

    assert_eq!(normalize_path(b"a/b///c").unwrap(), b"a/b/c".to_vec());

    assert_eq!(normalize_path(b"./a/b/.//c").unwrap(), b"a/b/c".to_vec());

    assert!(normalize_path(b"a/b/../c").is_err());
}

#[test]
fn uri_prefixes_are_recognized() {
    assert!(is_uri(b"http://test.example.com/foo"));
    assert!(is_uri(b"https+nocache://test.example.com/foo"));
    assert!(!is_uri(b"./http://test.example.com/foo"));
    assert!(!is_uri(b"HTTP://x"));
    let mut u = b"http://test.example.com/foo".to_vec();
    push_component(&mut u, b"test");
    assert_eq!(u, b"http://test.example.com/foo/test".to_vec());
    let mut u = b"http://test.example.com/bar/".to_vec();
    push_component(&mut u, b"test");
    assert_eq!(u, b"http://test.example.com/bar/test".to_vec());
}

#[test]
fn missing_file_goes_to_fallback() {
    let (is_url, target) = fallback_target(b"http://origin/base/", b"pxe/boot.img");
    assert!(is_url);
    assert_eq!(target, b"http://origin/base/pxe/boot.img".to_vec());
    let (is_url, target) = fallback_target(b"/srv/other/", b"x");
    assert!(!is_url);
    assert_eq!(target, b"/srv/other/x".to_vec());
}

#[test]
fn cache_control_test_00() {
    let values: Vec<Vec<u8>> = vec![
        b"max-age=23".to_vec(),
        b"s-maxage=42,no-cache".to_vec(),
        b"must-ReValidate".to_vec(),
        b"PROXY-revalidate".to_vec(),
        b"private,PUBLIC".to_vec(),
        b"immutable".to_vec(),
        b"xxx-unsupported".to_vec(),
    ];

    let mut step = 0;
    for i in parse_cache_control(&values) {
        match step {
            0 => assert_eq!(i.unwrap(), CacheControl::MaxAge(23)),
            1 => assert_eq!(i.unwrap(), CacheControl::SMaxAge(42)),
            2 => assert_eq!(i.unwrap(), CacheControl::NoCache),
            3 => assert_eq!(i.unwrap(), CacheControl::MustRevalidate),
            4 => assert_eq!(i.unwrap(), CacheControl::ProxyRevalidate),
            5 => assert_eq!(i.unwrap(), CacheControl::Private),
            6 => assert_eq!(i.unwrap(), CacheControl::Public),
            7 => assert_eq!(i.unwrap(), CacheControl::Immutable),
            8 => assert_eq!(i.unwrap(), CacheControl::Other),
            _ => panic!("too much results"),
        }

        step += 1;
    }

    assert_eq!(step, 9);
}

fn info(key: &[u8], val: &Option<Vec<u8>>) -> Result<(u32, Option<u32>), ()> {
    let a = String::from_utf8_lossy(key).parse::<u32>().map_err(|_| ())?;
    let b = match val {
        Some(v) => Some(String::from_utf8_lossy(v).parse::<u32>().map_err(|_| ())?),
        None => None,
    };
    Ok((a, b))
}

#[test]
fn multi_header_test_00() {
    let values: Vec<&[u8]> = vec![
        b"0",
        b"10,11,12",
        b",,,20,,,  21  ,,,  22,,,23  ,,,",
        b"30=1,31=, 32=2,33=3 ,34=",
    ];

    let mut all = Vec::new();
    for v in values {
        for (k, val) in elements(v) {
            all.push(info(&k, &val));
        }
    }

    let mut step = 0;
    for i in all {
        match step {
            0 => assert_eq!(i.unwrap(), (0, None)),
            1 => assert_eq!(i.unwrap(), (10, None)),
            2 => assert_eq!(i.unwrap(), (11, None)),
            3 => assert_eq!(i.unwrap(), (12, None)),
            4 => assert_eq!(i.unwrap(), (20, None)),
            5 => assert_eq!(i.unwrap(), (21, None)),
            6 => assert_eq!(i.unwrap(), (22, None)),
            7 => assert_eq!(i.unwrap(), (23, None)),
            8 => assert_eq!(i.unwrap(), (30, Some(1))),
            9 => assert!(i.is_err()),
            10 => assert_eq!(i.unwrap(), (32, Some(2))),
            11 => assert_eq!(i.unwrap(), (33, Some(3))),
            12 => assert!(i.is_err()),
            _ => panic!("too much results"),
        }

        step += 1;
    }

    assert_eq!(step, 13);
}

#[test]
fn split_reports_next_position() {
    let (t, next) = split(b" a = b ,c", 0);
    let (k, v) = t.unwrap();
    assert_eq!(k, b"a ".to_vec());
    assert_eq!(v, Some(b" b".to_vec()));
    assert_eq!(next, 8);
    let (t, next) = split(b" ,, ", 0);
    assert!(t.is_none());
    assert_eq!(next, 4);
}

#[test]
fn max_age_needs_a_number() {
    assert_eq!(CacheControl::try_from(b"max-age", &None), Err(Error::StringConversion));
    assert_eq!(CacheControl::try_from(b"max-age", &Some(b"x".to_vec())), Err(Error::StringConversion));
    assert_eq!(as_u64(b"18446744073709551616"), Err(Error::StringConversion));
    assert_eq!(as_u64(b"42"), Ok(42));
}

#[test]
fn test_outdated() {
    // Sun May 16 01:00:00 CET 1971
    let now = Time { local: 500 * 24 * 3600, mono: 1_000_000 };

    let tm_20 = now.mono + 20;
    let tm_50 = now.mono + 50;
    let tm_1d = now.mono + 24 * 3600;

    let e = {
        let mut map = no_headers();
        map.date = Some(b"Mon, 24 May 1971 00:00:00 GMT".to_vec());
        CacheInfo::new(now, &map).unwrap()
    };

    assert_eq!(e.get_expiration_tm(10), e.local_time + 10);
    assert!(!e.is_outdated(now.mono, 10));
    assert!(e.is_outdated(tm_20, 10));

    let e = {
        let mut map = no_headers();
        map.cache_control = vec![b"max-age=23".to_vec()];
        map.date = Some(b"Mon, 24 May 1971 00:00:00 GMT".to_vec());
        CacheInfo::new(now, &map).unwrap()
    };

    assert_eq!(e.get_expiration_tm(100), now.mono + 23);
    assert!(!e.is_outdated(now.mono, 100));
    assert!(!e.is_outdated(tm_20, 100));
    assert!(e.is_outdated(tm_50, 100));

    let e = {
        let mut map = no_headers();
        map.expires = Some(b"Mon, 24 May 1971 12:00:00 GMT".to_vec());
        map.date = Some(b"Mon, 24 May 1971 00:00:00 GMT".to_vec());
        CacheInfo::new(now, &map).unwrap()
    };

    assert_eq!(e.get_expiration_tm(100_000), e.local_time + 12 * 3600);
    assert_eq!(e.get_expiration_tm(100), e.local_time + 100);

    assert!(!e.is_outdated(now.mono, 100_000));
    assert!(!e.is_outdated(tm_20, 100_000));
    assert!(e.is_outdated(tm_1d, 100_000));

    let e = {
        let mut map = no_headers();
        map.last_modified = Some(b"Sun, 23 May 1971 00:00:00 GMT".to_vec());
        map.date = Some(b"Mon, 24 May 1971 00:00:00 GMT".to_vec());
        CacheInfo::new(now, &map).unwrap()
    };

    assert_eq!(e.get_expiration_tm(100_000), e.local_time + 100_000);

    assert!(!e.is_outdated(now.mono, 100_000));
}

#[test]
fn bad_dates_and_no_cache() {
    let now = Time { local: 1000, mono: 50 };
    let mut map = no_headers();
    map.date = Some(b"not a date".to_vec());
    assert_eq!(CacheInfo::new(now, &map).err(), Some(Error::BadHttpTime));
    let mut map = no_headers();
    map.cache_control = vec![b"max-age=100, no-cache".to_vec()];
    let e = CacheInfo::new(now, &map).unwrap();
    assert_eq!(e.not_after, Some(50));
    assert!(e.is_outdated(50, 1000));
    // a date far beyond the clock's reach
    assert!(!e.is_outdated(49, u64::MAX));
}

#[test]
fn conditional_request_headers() {
    let e = CacheInfo { not_after: Some(130), modified: Some(0), etag: Some(b"\"v1\"".to_vec()), local_time: 100 };
    let h = e.fill_request(100);
    assert_eq!(h.len(), 3);
    assert_eq!(h[0], ("if-modified-since", b"Thu, 01 Jan 1970 00:00:00 GMT".to_vec()));
    assert_eq!(h[1], ("if-none-match", b"\"v1\"".to_vec()));
    assert_eq!(h[2], ("cache-control", b"max-age=30".to_vec()));
    let h = e.fill_request(200);
    assert_eq!(h[2], ("cache-control", b"max-age=0".to_vec()));
}

#[test]
fn revalidation_merges_metadata() {
    let now = Time { local: 1000, mono: 50 };
    let old = CacheInfo { not_after: Some(70), modified: Some(5), etag: Some(b"e".to_vec()), local_time: 10 };
    let mut map = no_headers();
    map.cache_control = vec![b"max-age=7".to_vec()];
    let n = old.update(now, &map).unwrap();
    assert_eq!(n.not_after, Some(57));
    assert_eq!(n.modified, Some(5));
    assert_eq!(n.etag, Some(b"e".to_vec()));
    assert_eq!(n.local_time, 50);
}

fn meta(len: Option<u64>) -> ResponseMeta {
    let mut h = no_headers();
    h.cache_control = vec![b"max-age=60".to_vec()];
    h.etag = Some(b"\"x\"".to_vec());
    ResponseMeta { headers: h, content_length: len }
}

#[test]
fn cache_entry_downloads_and_serves_prefix() {
    let mut e = EntryData::new("http://origin/x".to_string());
    assert!(e.apply_response(200, meta(Some(6))).is_ok());
    assert!(e.is_running());
    assert_eq!(e.get_file_size(), Some(6));
    assert!(e.read(0, 4).unwrap().is_none());
    let got = e.push_chunk(Some(b"abcd"), 2);
    assert_eq!(got, b"ab".to_vec());
    assert_eq!(e.read(1, 10).unwrap(), Some(b"bcd".to_vec()));
    assert!(e.read(4, 1).unwrap().is_none());
    e.push_chunk(Some(b"ef"), 10);
    e.push_chunk(None, 10);
    assert!(e.is_complete());
    assert_eq!(e.read(4, 10).unwrap(), Some(b"ef".to_vec()));
    assert_eq!(e.read(6, 10).unwrap(), Some(vec![]));
    assert_eq!(e.read(7, 10), Err(Error::OutOfBounds));
}

#[test]
fn cache_hit_then_not_modified_keeps_body() {
    let mut e = EntryData::new("http://origin/x".to_string());
    e.apply_response(200, meta(None)).unwrap();
    e.push_chunk(Some(b"hello"), 64);
    e.push_chunk(None, 64);
    assert_eq!(e.get_file_size(), Some(5));
    let cond = e.fill_request();
    assert!(cond.iter().any(|(n, v)| *n == "if-none-match" && v == b"\"x\""));
    e.apply_response(304, meta(None)).unwrap();
    assert!(e.is_complete());
    assert_eq!(e.get_file_size(), Some(5));
    assert_eq!(e.read(0, 64).unwrap(), Some(b"hello".to_vec()));
    assert_eq!(e.apply_response(500, meta(None)), Err(Error::HttpStatus(500)));
    assert!(e.is_complete());
    e.apply_response(200, meta(None)).unwrap();
    assert!(matches!(e.state, State::HaveMeta { .. }));
}

#[test]
fn entry_freshness_and_etag() {
    let mut e = EntryData::new("u".to_string());
    assert!(e.is_outdated(0, 10));
    e.reftm = Time { local: 0, mono: 100 };
    e.apply_response(200, meta(None)).unwrap();
    assert!(!e.is_outdated(159, 1000));
    assert!(e.is_outdated(160, 1000));
    assert!(e.matches(&Some(b"\"x\"".to_vec()), 150));
    assert!(!e.matches(&Some(b"\"y\"".to_vec()), 150));
    assert!(!e.matches(&Some(b"\"x\"".to_vec()), 161));
    e.push_chunk(None, 1);
    e.invalidate();
    assert!(matches!(e.state, State::Empty));
}

#[test]
fn registry_keeps_one_entry_per_url() {
    let mut c: Cache<u32> = Cache::new();
    assert!(c.instanciate());
    assert!(!c.instanciate());
    assert!(c.lookup(b"a").is_none());
    c.replace(b"a", 1);
    c.replace(b"b", 2);
    c.replace(b"a", 3);
    assert_eq!(c.len(), 2);
    assert_eq!(c.lookup(b"a"), Some(&3));
    assert!(c.is_dirty());
    c.set_clean();
    assert!(!c.is_dirty());
    c.remove(b"a");
    assert!(c.lookup(b"a").is_none());
    assert_eq!(c.len(), 1);
    assert!(!c.close());
    assert!(c.close());
    assert!(c.is_empty());
}

#[test]
fn gc_removes_oldest_first() {
    let times = vec![Some(30), None, Some(10), Some(20)];
    let mut r = gc_select_oldest(&times, 2);
    r.sort();
    assert_eq!(r, vec![1, 2]);
    assert_eq!(gc_select_oldest(&times, 9).len(), 4);
    let props = GcProperties { max_elements: 10, max_lifetime: 3600, sleep: 60 };
    assert_eq!(props.max_elements, 10);
}

#[test]
fn time_frames() {
    let t = Time { local: 1000, mono: 50 };
    assert_eq!(t.relative(1030), Some(Time { local: 1030, mono: 80 }));
    assert_eq!(t.relative(900), None);
    assert_eq!(t.checked_add(5), Some(Time { local: 1005, mono: 55 }));
    assert_eq!(Time { local: 0, mono: 70 }.checked_duration_since(t), Some(20));
    assert_eq!(TimeDelta::from_systemtime(10, 4), Some(TimeDelta(-6)));
    let n = Time::now();
    assert!(n.local > 0);
}

#[test]
fn scheme_flags_are_split_off() {
    let (u, f) = get_uri(b"https+nocache://test.example.com/foo/test");
    assert_eq!(u, b"https://test.example.com/foo/test".to_vec());
    assert_eq!(f, UriFlags { no_cache: true, no_compress: false });
    let (u, f) = get_uri(b"http+nocache+nocompress://h/x");
    assert_eq!(u, b"http://h/x".to_vec());
    assert_eq!(f, UriFlags { no_cache: true, no_compress: true });
    let (u, f) = get_uri(b"http://h/x");
    assert_eq!(u, b"http://h/x".to_vec());
    assert_eq!(f, UriFlags { no_cache: false, no_compress: false });
}

#[test]
fn scheme_flags_ignore_case() {
    let (u, f) = get_uri(b"HTTP+NOCACHE://h/x");
    assert_eq!(u, b"http://h/x".to_vec());
    assert_eq!(f, UriFlags { no_cache: true, no_compress: false });
}

#[test]
fn failed_download_turns_entry_into_error() {
    let mut e = EntryData::new("http://origin/x".to_string());
    e.apply_response(200, meta(None)).unwrap();
    e.push_chunk(Some(b"ab"), 8);
    e.fail("origin read failed");
    assert!(e.is_error());
    assert!(!e.is_running());
    assert_eq!(e.read(0, 8).unwrap(), None);
    // an entry in error takes a fresh response
    e.apply_response(200, meta(Some(1))).unwrap();
    assert!(e.is_running());
}

#[test]
fn not_modified_without_body_starts_afresh() {
    let mut e = EntryData::new("u".to_string());
    e.apply_response(304, meta(Some(3))).unwrap();
    assert!(matches!(e.state, State::HaveMeta { file_size: Some(3), .. }));
}

#[test]
fn not_modified_merges_metadata() {
    let mut e = EntryData::new("u".to_string());
    e.reftm = Time { local: 0, mono: 100 };
    e.apply_response(200, meta(None)).unwrap();
    e.push_chunk(Some(b"body"), 8);
    e.push_chunk(None, 8);
    e.reftm = Time { local: 0, mono: 500 };
    let mut h = no_headers();
    h.cache_control = vec![b"max-age=10".to_vec()];
    e.apply_response(304, ResponseMeta { headers: h, content_length: None }).unwrap();
    let i = e.get_cache_info().unwrap();
    assert_eq!(i.not_after, Some(510));
    assert_eq!(i.etag, Some(b"\"x\"".to_vec()));
    assert_eq!(i.local_time, 500);
    assert_eq!(e.read(0, 8).unwrap(), Some(b"body".to_vec()));
}
