use versatiles::cache::LimitedCache;
use versatiles::coord::{TileBBox, TileCoord2, TileCoord3};
use versatiles::error::Error;
use versatiles::json::{
    parse_array_entries, parse_number_as_string, parse_object_entries, parse_quoted_json_string,
    parse_tag, ByteIterator, JsonValueParser,
};
use versatiles::server::{normalize_prefix, ServerSource, TileServer};

fn iter(text: &str) -> ByteIterator {
    ByteIterator::new(text.as_bytes().to_vec())
}

#[test]
fn json_tag() {
    let mut it = iter("null,");
    assert_eq!(parse_tag(&mut it, "null"), Ok(()));
    assert_eq!(it.position(), 4);
    let mut it = iter("nul");
    assert_eq!(parse_tag(&mut it, "null"), Err(Error::JsonError));
    let mut it = iter("true");
    assert_eq!(parse_tag(&mut it, "tree"), Err(Error::JsonError));
}

#[test]
fn json_number() {
    let mut it = iter("-12.5e3");
    assert_eq!(parse_number_as_string(&mut it).unwrap(), "-12.5");
    assert_eq!(it.position(), 5);
    let mut it = iter("x");
    assert_eq!(parse_number_as_string(&mut it).unwrap(), "");
}

#[test]
fn json_quoted_string() {
    let mut it = iter("  \"a\\\"b\\n\\u00e9\\u20ac\" rest");
    assert_eq!(parse_quoted_json_string(&mut it).unwrap(), "a\"b\né€");
    let mut it = iter("\"unterminated");
    assert_eq!(parse_quoted_json_string(&mut it), Err(Error::JsonError));
    let mut it = iter("'single'");
    assert_eq!(parse_quoted_json_string(&mut it), Err(Error::JsonError));
    let mut it = iter("\"\\ud800\"");
    assert_eq!(parse_quoted_json_string(&mut it), Err(Error::JsonError));
}

#[test]
fn cache_keeps_total_weight_under_capacity() {
    let mut cache: LimitedCache<u32> = LimitedCache::with_maximum_size(100);
    cache.add(1, 10, 40);
    cache.add(2, 20, 40);
    assert_eq!(cache.get(1), Some(&10));
    cache.add(3, 30, 40);
    assert!(cache.get_total() <= 100);
    assert_eq!(cache.get(2), None);
    assert_eq!(cache.get(1), Some(&10));
    assert_eq!(cache.get(3), Some(&30));
    cache.add(4, 40, 500);
    assert_eq!(cache.get(4), None);
    assert_eq!(cache.get_total(), 0);
    cache.add(5, 50, 100);
    assert_eq!(cache.get(5), Some(&50));
    cache.add(5, 55, 10);
    assert_eq!(cache.get(5), Some(&55));
    assert_eq!(cache.get_total(), 10);
}

#[test]
fn coords_and_boxes() {
    assert_eq!(TileCoord3::new(2, 0, 1), Err(Error::CoordOutOfRange));
    assert!(TileCoord3::new(15, 1, 4).is_ok());
    assert_eq!(TileBBox::new(2, 0, 0, 4, 0), Err(Error::CoordOutOfRange));
    let b = TileBBox::new(4, 2, 3, 5, 7).unwrap();
    assert_eq!(b.count_tiles(), 20);
    let c = TileCoord2 { x: 4, y: 5 };
    assert!(b.contains(&c));
    let i = b.get_tile_index(&c);
    assert_eq!(i, 10);
    assert_eq!(b.get_coord3_by_index(i), TileCoord3::new(4, 5, 4).unwrap());
    let mut d = b;
    d.intersect_bbox(&TileBBox::new(4, 0, 0, 2, 3).unwrap());
    assert_eq!((d.x_min, d.y_min, d.x_max, d.y_max), (2, 3, 2, 3));
    d.intersect_bbox(&TileBBox::new(4, 9, 9, 9, 9).unwrap());
    assert!(d.is_empty());
    let mut e = TileBBox::new(12, 300, 10, 1000, 600).unwrap();
    e.scale_down(256);
    assert_eq!((e.x_min, e.y_min, e.x_max, e.y_max), (1, 0, 3, 2));
}

struct Named(&'static str);

impl ServerSource for Named {
    fn get_name(&self) -> String {
        self.0.to_string()
    }
}

#[test]
fn server_prefixes() {
    assert_eq!(normalize_prefix("tiles".to_string()), "/tiles/");
    assert_eq!(normalize_prefix("/a/".to_string()), "/a/");
    let mut server: TileServer<Named> = TileServer::new("127.0.0.1", 8080);
    server.add_source("osm".to_string(), Named("osm.versatiles"));
    assert!(server.conflicts(&"/osm/x".to_string()));
    assert!(server.conflicts(&"/".to_string()));
    assert!(!server.conflicts(&"other".to_string()));
    server.add_source("other".to_string(), Named("other.versatiles"));
    server.set_static(Named("static"));
    assert_eq!(
        server.iter_url_mapping(),
        vec![
            ("/osm/".to_string(), "osm.versatiles".to_string()),
            ("/other/".to_string(), "other.versatiles".to_string())
        ]
    );
}

struct Collect(Vec<(Option<String>, String)>);

impl JsonValueParser for Collect {
    fn parse_value(&mut self, key: Option<String>, iter: &mut ByteIterator) -> Result<(), Error> {
        let n = parse_number_as_string(iter)?;
        self.0.push((key, n));
        Ok(())
    }
}

#[test]
fn json_arrays_and_objects() {
    let mut c = Collect(Vec::new());
    let mut it = iter(" [1, 22 ,-3]");
    assert_eq!(parse_array_entries(&mut it, &mut c), Ok(()));
    assert_eq!(c.0, vec![(None, "1".to_string()), (None, "22".to_string()), (None, "-3".to_string())]);
    let mut it = iter("[]");
    assert_eq!(parse_array_entries(&mut it, &mut c), Ok(()));
    let mut it = iter("[1 2]");
    assert_eq!(parse_array_entries(&mut it, &mut c), Err(Error::JsonError));
    let mut it = iter("{1}");
    assert_eq!(parse_array_entries(&mut it, &mut c), Err(Error::JsonError));

    let mut c = Collect(Vec::new());
    let mut it = iter("{\"a\": 1, \"b\":2}");
    assert_eq!(parse_object_entries(&mut it, &mut c), Ok(()));
    assert_eq!(c.0, vec![(Some("a".to_string()), "1".to_string()), (Some("b".to_string()), "2".to_string())]);
    let mut it = iter("{\"a\" 1}");
    assert_eq!(parse_object_entries(&mut it, &mut c), Err(Error::JsonError));
}
