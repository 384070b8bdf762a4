use versatiles::coord::TileBBoxPyramid;
use versatiles::compression::TileCompression;
use versatiles::error::Error;
use versatiles::header::TileFormat;
use versatiles::properties::{
    build_properties_map, Args, Factory, FeatureLayer, GeoProperties, GeoValue, Operation, Runner,
};
use versatiles::reader::TilesReaderParameters;
use versatiles::vpl::VPLNode;

fn props(entries: Vec<(&str, GeoValue)>) -> GeoProperties {
    let mut p = GeoProperties::new();
    for (k, v) in entries {
        p.insert(k.to_string(), v);
    }
    p
}

fn s(v: &str) -> GeoValue {
    GeoValue::Str(v.to_string())
}

/// The rows of `city_id,city_name,city_population`.
fn cities() -> Vec<GeoProperties> {
    vec![
        props(vec![("city_id", GeoValue::UInt(1)), ("city_name", s("Berlin")), ("city_population", GeoValue::UInt(3755251))]),
        props(vec![("city_id", GeoValue::UInt(2)), ("city_name", s("Kyiv")), ("city_population", GeoValue::UInt(2952301))]),
        props(vec![("city_id", GeoValue::UInt(3)), ("city_name", s("Plovdiv")), ("city_population", GeoValue::UInt(346893))]),
    ]
}

fn args(replace: bool, remove: bool, include_id: bool) -> Args {
    Args {
        data_source_path: "cities.csv".to_string(),
        id_field_tiles: "tile_id".to_string(),
        id_field_data: "city_id".to_string(),
        layer_name: None,
        replace_properties: replace,
        remove_non_matching: remove,
        include_id,
    }
}

fn parameters(format: TileFormat) -> TilesReaderParameters {
    TilesReaderParameters::new(format, TileCompression::Gzip, TileBBoxPyramid::new_full(3))
}

fn runner(a: Args) -> Runner {
    Runner::build(a, cities(), parameters(TileFormat::PBF)).unwrap().0
}

fn layer(features: Vec<GeoProperties>) -> Vec<FeatureLayer> {
    vec![FeatureLayer { name: "cities".to_string(), features }]
}

#[test]
fn test_args_from_vpl_node() {
    let vpl_node = VPLNode::from_str(
        r##"vectortiles_update_properties data_source_path="data.csv" id_field_tiles="id" id_field_data="id" replace_properties="true" include_id="true""##,
    )
    .unwrap();

    let args = Args::from_vpl_node(&vpl_node).unwrap();
    assert_eq!(args.data_source_path, "data.csv");
    assert_eq!(args.id_field_tiles, "id");
    assert_eq!(args.id_field_data, "id");
    assert!(args.replace_properties);
    assert!(args.include_id);
}

#[test]
fn vpl_node_errors() {
    assert_eq!(VPLNode::from_str("   ").unwrap_err(), Error::InvalidConfig);
    assert_eq!(VPLNode::from_str("op key").unwrap_err(), Error::InvalidConfig);
    assert_eq!(VPLNode::from_str("op key=\"open").unwrap_err(), Error::InvalidConfig);
    let node = VPLNode::from_str("op a=1 b=\"x y\"").unwrap();
    assert_eq!(node.name, "op");
    assert_eq!(node.get("b"), Some("x y".to_string()));
    assert_eq!(Args::from_vpl_node(&node).unwrap_err(), Error::InvalidConfig);
    let node = VPLNode::from_str("op data_source_path=a id_field_tiles=b id_field_data=c include_id=yes").unwrap();
    assert_eq!(Args::from_vpl_node(&node).unwrap_err(), Error::InvalidConfig);
}

#[test]
fn merge_adds_row_without_id() {
    let r = runner(args(false, false, false));
    let out = r.run(layer(vec![props(vec![("tile_id", GeoValue::UInt(1)), ("kind", s("city"))])]));
    let f = &out[0].features[0];
    assert_eq!(f.get("city_name"), Some(s("Berlin")));
    assert_eq!(f.get("city_population"), Some(GeoValue::UInt(3755251)));
    assert_eq!(f.get("kind"), Some(s("city")));
    assert_eq!(f.get("city_id"), None);
}

#[test]
fn replace_keeps_only_the_row() {
    let r = runner(args(true, false, false));
    let p = r.update_properties(props(vec![("tile_id", GeoValue::UInt(2)), ("kind", s("city"))])).unwrap();
    assert_eq!(p.get("kind"), None);
    assert_eq!(p.get("tile_id"), None);
    assert_eq!(p.get("city_name"), Some(s("Kyiv")));
    assert_eq!(p.get("city_population"), Some(GeoValue::UInt(2952301)));
    assert_eq!(p.get("city_id"), None);

    let r = runner(args(true, false, true));
    let p = r.update_properties(props(vec![("tile_id", GeoValue::UInt(2))])).unwrap();
    assert_eq!(p.get("city_id"), Some(GeoValue::UInt(2)));
}

#[test]
fn non_matching_features_are_removed_or_kept() {
    let features = vec![
        props(vec![("tile_id", GeoValue::UInt(1))]),
        props(vec![("tile_id", GeoValue::UInt(99))]),
        props(vec![("name", s("no id"))]),
    ];
    let out = runner(args(false, true, false)).run(layer(features.clone()));
    assert_eq!(out[0].features.len(), 2);
    assert_eq!(out[0].features[1].get("name"), Some(s("no id")));
    let out = runner(args(false, false, false)).run(layer(features));
    assert_eq!(out[0].features.len(), 3);
    assert_eq!(out[0].features[1].get("city_name"), None);
}

#[test]
fn other_layers_are_left_alone() {
    let mut a = args(true, true, false);
    a.layer_name = Some("roads".to_string());
    let out = runner(a).run(layer(vec![props(vec![("tile_id", GeoValue::UInt(1)), ("kind", s("x"))])]));
    assert_eq!(out[0].features[0].get("kind"), Some(s("x")));
}

#[test]
fn string_ids_join_numeric_keys() {
    let r = runner(args(false, false, false));
    let p = r.update_properties(props(vec![("tile_id", s("3"))])).unwrap();
    assert_eq!(p.get("city_name"), Some(s("Plovdiv")));
}

#[test]
fn missing_csv_key_fails() {
    let mut rows = cities();
    rows.push(props(vec![("city_name", s("Nowhere"))]));
    assert_eq!(build_properties_map(rows, "city_id", false).unwrap_err(), Error::MissingCsvKey);
    let e = Runner::build(args(false, false, false), cities(), parameters(TileFormat::PNG)).unwrap_err();
    assert_eq!(e, Error::InvalidConfig);
}

#[test]
fn operation_reports_uncompressed_vector_tiles() {
    let op = Operation::new(args(false, false, false), cities(), parameters(TileFormat::PBF), None).unwrap();
    assert_eq!(op.get_parameters().tile_compression, TileCompression::Uncompressed);
    assert_eq!(op.get_parameters().tile_format, TileFormat::PBF);
    assert_eq!(op.get_runner().tile_compression, TileCompression::Gzip);
    assert_eq!(op.get_meta(), None);
    assert_eq!(Factory {}.get_tag_name(), "vectortiles_update_properties");
}

#[test]
fn properties_update_and_remove() {
    let mut p = props(vec![("a", GeoValue::Int(-5)), ("b", GeoValue::Bool(true))]);
    p.update(&props(vec![("b", GeoValue::Bool(false)), ("c", GeoValue::UInt(7))]));
    assert_eq!(p.get("b"), Some(GeoValue::Bool(false)));
    assert_eq!(p.get("a").unwrap().to_key(), "-5");
    assert_eq!(p.get("c").unwrap().to_key(), "7");
    p.remove("a");
    assert_eq!(p.get("a"), None);
    assert_eq!(GeoValue::Bool(true).to_key(), "true");
}

#[test]
fn csv_rows_drive_the_rewrite() {
    let text = b"city_id,city_name,city_population\n1,Berlin,3755251\n2,Kyiv,2952301\n\n3,Plovdiv,346893\n";
    let rows = versatiles::csv::parse_csv(text).unwrap();
    assert_eq!(rows.len(), 3);
    assert_eq!(rows[0].get("city_name"), Some(s("Berlin")));
    assert_eq!(rows[2].get("city_population"), Some(GeoValue::UInt(346893)));
    let r = Runner::build(args(false, false, false), rows, parameters(TileFormat::PBF)).unwrap().0;
    let p = r.update_properties(props(vec![("tile_id", GeoValue::UInt(1))])).unwrap();
    assert_eq!(p.get("city_name"), Some(s("Berlin")));
    assert_eq!(p.get("city_id"), None);
}

#[test]
fn csv_values_and_errors() {
    let rows = versatiles::csv::parse_csv(b"data_id,value\n0,test\n").unwrap();
    assert_eq!(rows[0].get("data_id"), Some(GeoValue::UInt(0)));
    assert_eq!(rows[0].get("value"), Some(s("test")));
    let rows = versatiles::csv::parse_csv(b"a\n99999999999999999999\n-3\n").unwrap();
    assert_eq!(rows[0].get("a"), Some(s("99999999999999999999")));
    assert_eq!(rows[1].get("a"), Some(s("-3")));
    assert_eq!(versatiles::csv::parse_csv(b"a,b\n1\n").unwrap_err(), Error::InvalidConfig);
    assert_eq!(versatiles::csv::parse_csv(b"a\n\xff\n").unwrap_err(), Error::InvalidConfig);
}
