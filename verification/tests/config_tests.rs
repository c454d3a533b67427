use e_nguyen::config::{default_config_path, try_load_config, ENguyenConfig};

#[test]
fn instantiate_default() {
    let en_conf = ENguyenConfig::default();
    assert_eq!(en_conf.start_in_fullscreen, false);
}

#[test]
fn get_default_path() {
    default_config_path();
}

#[test]
fn default_path_value() {
    assert_eq!(default_config_path(), "~/.config/e-nguyen/e-nguyen.toml");
}

#[test]
fn serialize_default() {
    let en_conf = ENguyenConfig::default();
    let doc = en_conf.to_toml_bytes();
    let expected = "physical_device_index = 0\naudio_input_index = -1\nstart_in_fullscreen = false\n";
    assert_eq!(doc, expected.as_bytes().to_vec());
}

#[test]
fn round_trip_default() {
    let en_conf = ENguyenConfig::default();
    let doc = en_conf.to_toml_bytes();
    let loaded = ENguyenConfig::parse(&doc).unwrap();
    assert_eq!(loaded, en_conf);
}

#[test]
fn round_trip_modified() {
    let en_conf = ENguyenConfig {
        physical_device_index: 3,
        audio_input_index: 2147483647,
        start_in_fullscreen: true,
    };
    let doc = en_conf.to_toml_bytes();
    let loaded = try_load_config(&doc).unwrap();
    assert_eq!(loaded, en_conf);
}

#[test]
fn round_trip_extreme_negative() {
    let en_conf = ENguyenConfig {
        physical_device_index: -2147483648,
        audio_input_index: -1,
        start_in_fullscreen: false,
    };
    let doc = en_conf.to_toml_bytes();
    let loaded = ENguyenConfig::parse(&doc).unwrap();
    assert_eq!(loaded, en_conf);
}

#[test]
fn accepts_hand_edited_documents() {
    // blank lines, comments, extra blank space and CRLF endings all read
    let doc = "# written by hand\r\n\r\n  physical_device_index =  2\t# discrete gpu\r\n\
               audio_input_index = -1\r\nstart_in_fullscreen = true  \r\n";
    let loaded = try_load_config(doc.as_bytes()).unwrap();
    assert_eq!(loaded.physical_device_index, 2);
    assert_eq!(loaded.audio_input_index, -1);
    assert_eq!(loaded.start_in_fullscreen, true);
}

#[test]
fn accepts_any_key_order_and_signs() {
    let doc = "start_in_fullscreen = false\nphysical_device_index = +7\naudio_input_index = -003";
    let loaded = try_load_config(doc.as_bytes()).unwrap();
    assert_eq!(loaded.physical_device_index, 7);
    assert_eq!(loaded.audio_input_index, -3);
    assert_eq!(loaded.start_in_fullscreen, false);
}

#[test]
fn reject_garbage() {
    assert!(try_load_config(b"not a config").is_none());
    assert!(try_load_config(b"").is_none());
    let err = ENguyenConfig::parse(b"physical_device_index = x\n").unwrap_err();
    assert_eq!(err.message(), "Config document rejected");
}

#[test]
fn reject_malformed_tables() {
    let base = "physical_device_index = 0\naudio_input_index = -1\nstart_in_fullscreen = false\n";
    // a duplicate key
    let dup = format!("{}audio_input_index = 2\n", base);
    assert!(try_load_config(dup.as_bytes()).is_none());
    // a missing key
    let missing = "physical_device_index = 0\nstart_in_fullscreen = false\n";
    assert!(try_load_config(missing.as_bytes()).is_none());
    // an unknown key
    let unknown = format!("{}volume = 11\n", base);
    assert!(try_load_config(unknown.as_bytes()).is_none());
    // a boolean where a number belongs, and a bare key
    assert!(try_load_config(b"physical_device_index = true\n").is_none());
    assert!(try_load_config(b"physical_device_index\n").is_none());
    // a value outside the 32-bit range
    let wide = "physical_device_index = 2147483648\naudio_input_index = -1\nstart_in_fullscreen = false\n";
    assert!(try_load_config(wide.as_bytes()).is_none());
}
