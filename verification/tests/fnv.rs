use olympus::fnv::{fnv, fnv_bytes};

#[test]
fn works() {
    assert_eq!(fnv("a"), 0xaf63_dc4c_8601_ec8c);
    assert_eq!(fnv("abc"), 0xe71f_a219_0541_574b);
    assert_eq!(fnv("12345678"), 0x1739_32c4_1a90_a42d);
    assert_eq!(fnv("w54s6edr75tf8yg9uh0ij!@#^&*"), 0x2be8_d04f_8a4f_a8d2);
    assert_eq!(fnv("w3sd5e6rcfvt7yg8u54s123r6ftyguhij565t789yghui5867912367890asdhuio6edr75tf8yg9uh5436rtuyg&!)@#Y*HUPEINJW:0ij6@^#&!)(YE*UPHOQWD!@#^&*"), 0x9b93_71d5_ab6f_b467);
}

#[test]
fn empty_name_hashes_to_the_offset_basis() {
    assert_eq!(fnv(""), 0xcbf2_9ce4_8422_2325);
}

#[test]
fn procedure_names_hash_as_their_bytes() {
    assert_eq!(fnv("getFile"), 0x092f_6eef_586a_5749);
    assert_eq!(fnv("getFile"), fnv_bytes(b"getFile"));
    assert_eq!(fnv("getServerVersion"), 0x01fa_1f7d_ce4f_eca0);
    assert_eq!(fnv("deleteFile"), 0x2307_c73f_1904_5fac);
}

#[test]
fn names_that_differ_in_case_hash_apart() {
    assert_ne!(fnv("getFile"), fnv("get_file"));
    assert_ne!(fnv("getFile"), fnv("GetFile"));
}

#[test]
fn hashing_twice_gives_the_same() {
    assert_eq!(fnv("héllo ✓"), fnv("héllo ✓"));
    assert_eq!(fnv("héllo ✓"), fnv_bytes("héllo ✓".as_bytes()));
}
