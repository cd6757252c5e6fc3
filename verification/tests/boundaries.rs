use const_sha1::{sha1, sha1_from_const_slice, ConstSlice};

fn hex_of_run(len: usize) -> String {
    sha1(&vec![b'x'; len]).to_string()
}

#[test]
fn length_55_fills_one_final_block() {
    assert_eq!(hex_of_run(55), "cef734ba81a024479e09eb5a75b6ddae62e6abf1");
}

#[test]
fn length_56_needs_two_final_blocks() {
    assert_eq!(hex_of_run(56), "901305367c259952f4e7af8323f480d59f81335b");
}

#[test]
fn length_63_needs_two_final_blocks() {
    assert_eq!(hex_of_run(63), "0ddc4e0cccd9a12850deb5abb0853a4425559fec");
}

#[test]
fn length_64_pads_an_empty_tail() {
    assert_eq!(hex_of_run(64), "bb2fa3ee7afb9f54c6dfb5d021f14b1ffe40c163");
}

#[test]
fn length_65_starts_a_new_tail() {
    assert_eq!(hex_of_run(65), "78c741ddc482e4cdf8c474a0876347a0905b6233");
}

#[test]
fn lengths_around_the_second_block() {
    assert_eq!(hex_of_run(119), "4300320394f7ee239bcdce7d3b8bcee173a0cd5c");
    assert_eq!(hex_of_run(120), "ceb2821639c4b6dcb10bce0e522ca2e608ce056d");
    assert_eq!(hex_of_run(127), "e463484d274607e1897d4099497cbf2aedcf8206");
    assert_eq!(hex_of_run(128), "150fa3fbdc899bd0b8f95a9fb6027f564d953762");
    assert_eq!(hex_of_run(129), "2699b675922cc84a9b0dfd926eb7f8211c78693d");
}

#[test]
fn boundary_lengths_of_distinct_bytes() {
    let bytes: Vec<u8> = (0..65).collect();
    assert_eq!(sha1(&bytes[..55]).to_string(), "8ae2d46729cfe68ff927af5eec9c7d1b66d65ac2");
    assert_eq!(sha1(&bytes[..56]).to_string(), "636e2ec698dac903498e648bd2f3af641d3c88cb");
    assert_eq!(sha1(&bytes[..63]).to_string(), "6d942da0c4392b123528f2905c713a3ce28364bd");
    assert_eq!(sha1(&bytes[..64]).to_string(), "c6138d514ffa2135bfce0ed0b8fac65669917ec7");
    assert_eq!(sha1(&bytes[..65]).to_string(), "69bd728ad6e13cd76ff19751fde427b00e395746");
}

#[test]
fn buffer_entry_point_agrees_at_the_boundaries() {
    for len in [0usize, 1, 55, 56, 63, 64, 65, 127, 128, 1023, 1024] {
        let input = vec![b'x'; len];
        let buffer = ConstSlice::from_slice(&input).unwrap();
        assert_eq!(sha1_from_const_slice(&buffer), sha1(&input), "at length {}", len);
    }
}

#[test]
fn full_buffer_digest() {
    let buffer = ConstSlice::from_slice(&[b'x'; 1024]).unwrap();
    assert_eq!(
        sha1_from_const_slice(&buffer).to_string(),
        "d5a3c9bd7e746c98b4aea0e9194fb9555b3c22ad"
    );
}
