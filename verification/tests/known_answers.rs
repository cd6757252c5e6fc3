use const_sha1::{sha1, sha1_from_const_slice, ConstSlice, BUFFER_SIZE};

#[test]
fn it_works() {
    let tests = [
        (
            "The quick brown fox jumps over the lazy dog",
            "2fd4e1c67a2d28fced849ee1bb76e7391b93eb12",
        ),
        (
            "The quick brown fox jumps over the lazy cog",
            "de9f2c7fd25e1b3afad3e85a0bd17d9b100db4b3",
        ),
        (
            "",
            "da39a3ee5e6b4b0d3255bfef95601890afd80709"),
        (
            "testing\n",
            "9801739daae44ec5293d4e1f53d3f4d2d426d91c"),
        (
            "xxxxxxxxxxxxxxxxxxxxxxxxxxxxxxxxxxxxxxxxxxxxxxxxxxxxxxxxx",
            "025ecbd5d70f8fb3c5457cd96bab13fda305dc59"
        ),
        (
            "xxxxxxxxxxxxxxxxxxxxxxxxxxxxxxxxxxxxxxxxxxxxxxxxxxxxxxxxxxxxxxxxxxxxxxxxxxxxxxxxxxxxxxxxxxxxxxxxxxxxxxxxxxxxxxxxxxxxxxx",
            "4300320394f7ee239bcdce7d3b8bcee173a0cd5c"
        ),
        (
            "xxxxxxxxxxxxxxxxxxxxxxxxxxxxxxxxxxxxxxxxxxxxxxxxxxxxxxx",
            "cef734ba81a024479e09eb5a75b6ddae62e6abf1"
        ),
        (
            "pinterface({1f6db258-e803-48a1-9546-eb7353398884};pinterface({faa585ea-6214-4217-afda-7f46de5869b3};{96369f54-8eb6-48f0-abce-c1b211e627c3}))", 
            "b1b3deeb1552c97f3f36152f7baeec0f6ac159bc"
        ),
        (
            "Lorem ipsum dolor sit amet, consectetur adipiscing elit. Nulla aliquet varius molestie. Morbi eu est id massa fringilla gravida. Class aptent taciti sociosqu ad litora torquent per conubia nostra, per inceptos himenaeos. Duis pharetra facilisis ipsum et faucibus. Donec ut magna posuere, pretium nunc nec, egestas sem. Vivamus mattis ex neque, eu vehicula ex pharetra vitae. Aliquam ac cursus nunc. Duis ac nibh non velit ultrices luctus eu eu orci. Aenean suscipit sem a risus convallis ultrices. Nullam accumsan, turpis at pharetra porttitor, augue nisi pulvinar neque, id mattis ex eros ac diam. Praesent ultrices, ex sed elementum viverra, nunc ligula efficitur tellus, vel placerat dui dui in odio. Vivamus gravida pulvinar nisl, sit amet laoreet augue tristique at. Nunc in velit nisi. Praesent suscipit, mi quis dictum aliquet, lacus nulla ornare arcu, sit amet hendrerit urna ex a erat. Donec tempor lorem libero, sed aliquam libero tristique vitae.\nAenean nisl ipsum, pharetra id sollicitudin vitae, rhoncus eu est. Integer at sem sem. Duis venenatis dapibus ornare. Donec fermentum scelerisque lectus, sit amet tempus turpis sodales ut. Maecenas ultrices libero quis pulvinar auctor. Maecenas et enim vel eros pretium iaculis. Aenean luctus convallis lectus ut convallis. Maecenas eu orci quis lacus tincidunt tristique eget id odio. Quisque sit amet dictum nunc, molestie dapibus massa. Integer ultricies enim massa, et semper ligula imperdiet ut. Proin malesuada dapibus magna a bibendum. Phasellus quis vehicula lorem. Quisque sit amet tempor erat, eu mollis odio. Proin consequat interdum cursus. Vivamus ornare enim et tincidunt interdum. Nam suscipit magna a ex tempor tempor eget a nisl.\nProin aliquet ligula mollis bibendum malesuada. Fusce ac eros nunc. Quisque vel commodo ligula, ac efficitur nisl. Phasellus in ipsum et tortor elementum laoreet nec rutrum libero. Cras ut justo eleifend, vulputate sapien vel, tempus libero. Integer a nisi a mauris varius scelerisque vitae at felis. Phasellus sit amet iaculis libero porttitor.",
            "30648ad988839ad25365fe1674417eca19c7da01"
        )
    ];

    for &(s, expected) in tests.iter() {
        let hash = sha1(s.as_bytes()).to_string();

        assert_eq!(hash, expected);
    }

    for &(s, expected) in tests.iter().filter(|(s, _)| s.len() <= BUFFER_SIZE) {
        let hash = sha1_from_const_slice(&ConstSlice::from_slice(s.as_bytes()).unwrap()).to_string();

        assert_eq!(hash, expected);
    }
}

#[test]
fn empty_message() {
    assert_eq!(sha1(b"").to_string(), "da39a3ee5e6b4b0d3255bfef95601890afd80709");
}

#[test]
fn quick_brown_fox_dog() {
    assert_eq!(
        sha1(b"The quick brown fox jumps over the lazy dog").to_string(),
        "2fd4e1c67a2d28fced849ee1bb76e7391b93eb12"
    );
}

#[test]
fn quick_brown_fox_cog() {
    assert_eq!(
        sha1(b"The quick brown fox jumps over the lazy cog").to_string(),
        "de9f2c7fd25e1b3afad3e85a0bd17d9b100db4b3"
    );
}

#[test]
fn testing_with_newline() {
    assert_eq!(sha1(b"testing\n").to_string(), "9801739daae44ec5293d4e1f53d3f4d2d426d91c");
}

#[test]
fn run_of_x_in_one_final_block() {
    let input = "xxxxxxxxxxxxxxxxxxxxxxxxxxxxxxxxxxxxxxxxxxxxxxxxxxxxxxxxx";
    assert_eq!(sha1(input.as_bytes()).to_string(), "025ecbd5d70f8fb3c5457cd96bab13fda305dc59");
}

#[test]
fn run_of_x_in_two_final_blocks() {
    let input = "xxxxxxxxxxxxxxxxxxxxxxxxxxxxxxxxxxxxxxxxxxxxxxxxxxxxxxxxxxxxxxxxxxxxxxxxxxxxxxxxxxxxxxxxxxxxxxxxxxxxxxxxxxxxxxxxxxxxxxx";
    assert_eq!(sha1(input.as_bytes()).to_string(), "4300320394f7ee239bcdce7d3b8bcee173a0cd5c");
}

#[test]
fn three_letters() {
    assert_eq!(sha1(b"abc").to_string(), "a9993e364706816aba3e25717850c26c9cd0d89d");
}

#[test]
fn fifty_six_letters() {
    assert_eq!(
        sha1(b"abcdbcdecdefdefgefghfghighijhijkijkljklmklmnlmnomnopnopq").to_string(),
        "84983e441c3bd26ebaae4aa1f95129e5e54670f1"
    );
}

#[test]
fn a_million_letters() {
    let input = vec![b'a'; 1_000_000];
    assert_eq!(sha1(&input).to_string(), "34aa973cd4c4daa4f61eeb2bdbad27316534016f");
}

#[test]
fn same_input_same_digest() {
    let input = b"The quick brown fox jumps over the lazy dog";
    let first = sha1(input);
    let second = sha1(input);
    assert_eq!(first, second);
    assert_eq!(first.as_bytes(), second.as_bytes());
    assert_eq!(first.to_string(), second.to_string());
}

#[test]
fn one_flipped_bit_changes_many_output_bits() {
    let input = *b"The quick brown fox jumps over the lazy dog";
    let base = sha1(&input).as_bytes();
    for position in 0..input.len() * 8 {
        let mut flipped = input;
        flipped[position / 8] ^= 1 << (position % 8);
        let other = sha1(&flipped).as_bytes();
        let mut changed = 0;
        for i in 0..20 {
            changed += (base[i] ^ other[i]).count_ones();
        }
        assert!(changed >= 40, "bit {} changed only {} output bits", position, changed);
        assert!(changed <= 120, "bit {} changed {} output bits", position, changed);
    }
}
