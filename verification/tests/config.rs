use sereal_decoder::config::Config;

#[test]
fn default_bounds() {
    let c = Config::default();
    assert_eq!(c.max_suffix_len(), 1_000_000);
    assert_eq!(c.max_string_len(), 1_000_000);
    assert_eq!(c.max_compressed_size(), 100_000_000);
    assert_eq!(c.max_uncompressed_size(), 100_000_000);
    assert_eq!(c.max_array_size(), 1_000_000);
    assert_eq!(c.max_hash_size(), 1_000_000);
    assert_eq!(c.max_depth(), 1_000);
}

#[test]
fn default_trait_gives_the_same_bounds() {
    let c: Config = Default::default();
    assert_eq!(c.max_suffix_len(), Config::default().max_suffix_len());
    assert_eq!(c.max_depth(), Config::default().max_depth());
}

#[test]
fn each_builder_changes_one_bound() {
    let c = Config::default()
        .with_max_suffix_len(1)
        .with_max_string_len(2)
        .with_max_compressed_size(3)
        .with_max_uncompressed_size(4)
        .with_max_array_size(5)
        .with_max_hash_size(6)
        .with_max_depth(7);
    assert_eq!(c.max_suffix_len(), 1);
    assert_eq!(c.max_string_len(), 2);
    assert_eq!(c.max_compressed_size(), 3);
    assert_eq!(c.max_uncompressed_size(), 4);
    assert_eq!(c.max_array_size(), 5);
    assert_eq!(c.max_hash_size(), 6);
    assert_eq!(c.max_depth(), 7);

    let d = Config::default().with_max_array_size(9);
    assert_eq!(d.max_array_size(), 9);
    assert_eq!(d.max_hash_size(), 1_000_000);
    assert_eq!(d.max_string_len(), 1_000_000);
}
