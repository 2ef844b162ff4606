use apple2::disk::dsk::Dsk;
use apple2::disk::woz::Woz;

#[test]
fn six_and_two_roundtrip() {
    let mut sector = [0u8; 256];
    for i in 0..256 {
        sector[i] = (i as u8).wrapping_mul(37).wrapping_add(11);
    }
    let encoded = Dsk::encode_6_and_2(&sector);
    assert_eq!(encoded.len(), 343);
    let decoded = Dsk::decode_6_and_2(&encoded);
    assert_eq!(decoded, sector);
}

#[test]
fn six_and_two_roundtrip_extremes() {
    for fill in [0u8, 0xff, 0xaa, 0x55] {
        let sector = [fill; 256];
        let decoded = Dsk::decode_6_and_2(&Dsk::encode_6_and_2(&sector));
        assert_eq!(decoded, sector);
    }
}

#[test]
fn four_and_four_roundtrip() {
    for v in 0..=255u8 {
        let mut bits: Vec<u8> = Vec::new();
        Dsk::write_4and4(&mut bits, v);
        assert_eq!(bits.len(), 16);
        let mut a = 0u8;
        let mut b = 0u8;
        for i in 0..8 {
            a = (a << 1) | bits[i];
            b = (b << 1) | bits[8 + i];
        }
        assert_eq!(Dsk::decode_4_and_4(a, b), v);
    }
}

#[test]
fn little_endian_roundtrip() {
    let mut buffer: Vec<u8> = Vec::new();
    Woz::push_32(&mut buffer, 0x1234_5678);
    Woz::push_16(&mut buffer, 0xabcd);
    assert_eq!(buffer, vec![0x78, 0x56, 0x34, 0x12, 0xcd, 0xab]);
    Woz::set_32(&mut buffer, 1, 0xdead_beef);
    assert_eq!(buffer, vec![0x78, 0xef, 0xbe, 0xad, 0xde, 0xab]);
    let mut w = Woz::default();
    w.skip(1);
    assert_eq!(w.read32(&buffer), 0xdead_beef);
}

use apple2::disk::disk::Disk;

#[test]
fn bits_written_to_a_track_read_back() {
    let bytes = vec![0u8; 143_360];
    let mut disk = Disk::new("blank.dsk", &bytes, false).unwrap().unwrap();
    assert!(disk.can_write(0));
    let data: Vec<u8> = vec![1, 0, 1, 1, 0, 0, 1, 0, 1, 1, 1, 1, 1, 1, 1, 1];
    let start = disk.bit_position;
    disk.write_bits(0, &data);
    assert_eq!(disk.bit_position, start + data.len());
    disk.bit_position = start;
    for expected in &data {
        assert_eq!(disk.next_bit(0), *expected);
    }
}

use apple2::disk::bit_stream::{BitStream, BitStreams};
use apple2::disk::disk_info::DiskInfo;

#[test]
fn woz_file_saved_then_loaded() {
    let lengths = [51_001usize, 50_003];
    let mut streams: Vec<BitStream> = Vec::new();
    let mut originals: Vec<Vec<u8>> = Vec::new();
    for (t, len) in lengths.iter().enumerate() {
        let bits: Vec<u8> = (0..*len).map(|i| (((i * 7 + t) / 3) % 2) as u8).collect();
        originals.push(bits.clone());
        streams.push(BitStream::new(bits));
    }
    let mut tmap = [0xffu8; 160];
    for p in 0..4 {
        tmap[p] = 0;
        tmap[4 + p] = 1;
    }
    let bit_streams = BitStreams::new(streams, tmap, DiskInfo::default());
    let mut buffer: Vec<u8> = Vec::new();
    Woz::woz_file_1(&mut buffer);
    Woz::woz_file_2(&mut buffer, &bit_streams);
    let woz = Woz::new(&buffer, "saved.woz", false).unwrap().unwrap();
    assert_eq!(woz.bit_streams.tmap, tmap);
    assert_eq!(woz.bit_streams.bit_streams.len(), 2);
    for t in 0..2 {
        assert_eq!(woz.bit_streams.bit_streams[t].bits, originals[t]);
    }
}

#[test]
fn woz_header_errors() {
    let mut bytes = vec![0u8; 64];
    bytes[..4].copy_from_slice(b"ABCD");
    bytes[4] = 0xff;
    assert_eq!(Woz::new(&bytes, "bad.woz", false).unwrap().err(), Some("Not a valid .woz file".to_string()));
    let mut bytes = vec![0u8; 64];
    bytes[..4].copy_from_slice(b"WOZ2");
    bytes[4] = 0x00;
    assert_eq!(Woz::new(&bytes, "bad.woz", false).unwrap().err(), Some("Expected $FF".to_string()));
    // A file that ends in the middle of its header cannot be read.
    assert!(Woz::new(b"WOZ", "short.woz", false).is_none());
}

#[test]
fn disk_formats_by_name() {
    let bytes = vec![0u8; 143_360];
    assert!(Disk::new("game.txt", &bytes, false).is_none());
    assert!(matches!(Disk::new("GAME.DSK", &bytes, true), Some(Ok(_))));
}

#[test]
fn dsk_image_tracks_and_map() {
    let bytes: Vec<u8> = (0..143360u32).map(|i| (i * 7 % 253) as u8).collect();
    let dsk = Dsk::bytes_to_bit_streams("image.dsk", &bytes);
    let first: Vec<u8> = (0..10).map(|p| dsk.bit_streams.tmap[p]).collect();
    assert_eq!(first, vec![0, 0, 0xff, 1, 1, 1, 0xff, 2, 2, 2]);
    for p in 138..160 {
        assert_eq!(dsk.bit_streams.tmap[p], 0xff);
    }
    assert_eq!(dsk.bit_streams.bit_streams.len(), 35);
    for t in [0usize, 1, 17, 34] {
        let expected = Dsk::encode_track(&bytes[4096 * t..4096 * (t + 1)], t as u8);
        assert_eq!(dsk.bit_streams.get_stream(4 * t).bits, expected);
    }
    // a quarter track between tracks has no stream: it reads as one bit of noise
    assert_eq!(dsk.bit_streams.len(2), 1);
}

use apple2::disk::bit_stream::{AreaType, Nibble};

#[test]
fn nibbles_written_read_back() {
    let nibbles = vec![
        Nibble::new(0xff, 2),
        Nibble::new(0xd5, 0),
        Nibble::new(0xaa, 0),
        Nibble::new(0x96, 5),
        Nibble::new(0x80, 0),
        Nibble::new(0xde, 0),
        Nibble::new(0xaa, 3),
        Nibble::new(0xff, 0),
    ];
    let mut bits: Vec<u8> = Vec::new();
    for n in &nibbles {
        bits.extend(n.to_bits());
    }
    let stream = BitStream::new(bits);
    assert_eq!(stream.to_nibbles(), nibbles);
    // finding the areas keeps the nibbles and only sets their areas
    let areas = stream.find_nibble_areas();
    assert_eq!(areas.len(), nibbles.len());
    for k in 0..areas.len() {
        assert_eq!(areas[k].value, nibbles[k].value);
        assert_eq!(areas[k].sync_bits, nibbles[k].sync_bits);
    }
    assert_eq!(areas[1].area_type, AreaType::AddressPrologue);
    assert_eq!(areas[4].area_type, AreaType::AddressContent);
    assert_eq!(areas[5].area_type, AreaType::AddressEpilogue);
}

use apple2::disk::bit_stream::TrackType;

#[test]
fn encoded_track_is_standard() {
    let bytes: Vec<u8> = (0..4096u32).map(|i| (i * 31 % 256) as u8).collect();
    for track in [0u8, 17, 34] {
        let stream = BitStream::new(Dsk::encode_track(&bytes, track));
        let analyzed = stream.analyze_track();
        assert_eq!(analyzed.track_type, TrackType::Standard);
    }
    let zeros = vec![0u8; 4096];
    let analyzed = BitStream::new(Dsk::encode_track(&zeros, 3)).analyze_track();
    assert_eq!(analyzed.track_type, TrackType::Standard);
}

use apple2::disk::disk_info::last_path_component;

#[test]
fn disk_names_are_the_last_path_component() {
    assert_eq!(DiskInfo::n("/disks/games/lode.woz").name(), "lode.woz");
    assert_eq!(DiskInfo::n("/a/b/.").name(), "b");
    assert_eq!(DiskInfo::n("a/./b//").name(), "b");
    assert_eq!(last_path_component("./x"), "x");
    assert_eq!(last_path_component("."), ".");
    assert_eq!(last_path_component("./."), ".");
    assert_eq!(last_path_component("/."), "/");
    assert_eq!(last_path_component("///"), "/");
    assert_eq!(last_path_component(""), "");
    assert_eq!(last_path_component("a/.."), "..");
}
