use rustzss::asset_loader::{
    decimal_string, filename_of, identify_asset_type, scan_keeps, str_eq, to_ascii_lower,
    AssetInfo, AssetType,
};

#[test]
fn test_extension_classifies_textures() {
    let asset = AssetInfo::new("assets/images/Tex.PNG".to_string(), 100, vec![0u8; 100]);
    assert_eq!(asset.extension(), Some("png".to_string()));
    assert_eq!(asset.asset_type, AssetType::Texture);
    assert_eq!(asset.filename(), "Tex.PNG");
    assert_eq!(asset.size, 100);
    assert_eq!(asset.data().len(), 100);
}

#[test]
fn test_identify_each_category() {
    assert_eq!(identify_asset_type("a/b/c.jpeg"), AssetType::Texture);
    assert_eq!(identify_asset_type("model.FBX"), AssetType::Model);
    assert_eq!(identify_asset_type("world.level"), AssetType::LevelData);
    assert_eq!(identify_asset_type("song.flac"), AssetType::Audio);
    assert_eq!(identify_asset_type("walk.anim"), AssetType::Animation);
    assert_eq!(identify_asset_type("archive.zip"), AssetType::Unknown);
    assert_eq!(identify_asset_type("noextension"), AssetType::Unknown);
}

#[test]
fn test_hidden_and_empty_names() {
    // a leading dot starts the filename, so it is no extension
    assert_eq!(identify_asset_type(".gitignore"), AssetType::Unknown);
    let asset = AssetInfo::new("dir/".to_string(), 0, Vec::new());
    assert_eq!(asset.filename(), "unknown");
    assert_eq!(asset.extension(), None);
    // a trailing dot gives an empty extension, which matches no category
    assert_eq!(identify_asset_type("strange."), AssetType::Unknown);
}

#[test]
fn test_scan_keep_rule() {
    assert!(scan_keeps(AssetType::Texture, 0));
    assert!(scan_keeps(AssetType::Audio, 10));
    assert!(!scan_keeps(AssetType::Unknown, 1024));
    assert!(scan_keeps(AssetType::Unknown, 1025));
}

#[test]
fn test_type_names() {
    assert_eq!(AssetType::Texture.name(), "Texture");
    assert_eq!(AssetType::Model.name(), "Model");
    assert_eq!(AssetType::LevelData.name(), "LevelData");
    assert_eq!(AssetType::Audio.name(), "Audio");
    assert_eq!(AssetType::Animation.name(), "Animation");
    assert_eq!(AssetType::Unknown.name(), "Unknown");
}

#[test]
fn test_string_helpers() {
    assert_eq!(to_ascii_lower("MiXeD123!"), "mixed123!");
    assert_eq!(to_ascii_lower(""), "");
    assert!(str_eq("same", "same"));
    assert!(!str_eq("same", "same "));
    assert!(!str_eq("a", "b"));
    assert_eq!(filename_of("a/b/c.txt"), "c.txt");
    assert_eq!(filename_of("plain"), "plain");
}

#[test]
fn test_clone_keeps_asset() {
    let asset = AssetInfo::new("s/ball.obj".to_string(), 3, vec![1, 2, 3]);
    let copy = asset.clone();
    assert_eq!(copy.path, asset.path);
    assert_eq!(copy.asset_type, AssetType::Model);
    assert_eq!(copy.size, 3);
    assert_eq!(copy.data(), asset.data());
}

#[test]
fn test_decimal_string() {
    assert_eq!(decimal_string(0), "0");
    assert_eq!(decimal_string(7), "7");
    assert_eq!(decimal_string(10), "10");
    assert_eq!(decimal_string(12345), "12345");
}
