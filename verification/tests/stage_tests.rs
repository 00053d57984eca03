use img_dup::bithash::BitHash;
use img_dup::error::{Error, ErrorKind};
use img_dup::hash::{CompareMode, HashSettings, HashType};
use img_dup::loader::WorkResult;
use img_dup::manage::{manage_images, receive_images, ImageManager, UniqueImage};
use img_dup::model::{HashedImage, Image};
use img_dup::pipeline::Ready;
use img_dup::pixels::RgbaImage;
use img_dup::search::{after_error, after_visit, event_for, lowercase, WalkEvent, WalkNext, WalkStep};
use img_dup::settings::{
    args_to_settings, ArgError, ArgValues, EXIT_ARGUMENT_ERROR, EXIT_FATAL_IO, EXIT_SUCCESS,
};
use img_dup::status::WorkStatus;
use img_dup::vptree::Neighbor;

fn item(name: &str, value: u64, bits: usize) -> HashedImage {
    let bools: Vec<bool> = (0..bits).map(|i| (value >> i) & 1 == 1).collect();
    HashedImage {
        image: Image { path: name.to_string(), dimensions: (2, 2), loaded_size: 16, load_time: 3 },
        hash: BitHash::from_bools(&bools),
        hash_time: 1,
    }
}

fn no_args() -> ArgValues {
    ArgValues {
        threads: None,
        exts: vec![],
        no_default_exts: false,
        recursive: false,
        outfile: None,
        hash_size: None,
        hash_type: None,
        k_nearest: None,
        distance: None,
        pretty_indent: None,
        directory: None,
    }
}

fn text(value: &str) -> Option<String> {
    Some(value.to_string())
}

#[test]
fn settings_take_their_defaults() {
    let settings = args_to_settings(no_args()).unwrap();
    assert_eq!(settings.threads, None);
    assert_eq!(settings.hash, HashSettings { hash_size: 8, hash_type: HashType::Gradient });
    assert_eq!(settings.compare_type, CompareMode::KNearest(5));
    assert_eq!(settings.serialize.outfile, "img-dup.json");
    assert_eq!(settings.serialize.pretty_indent, None);
    assert_eq!(settings.search.dir, ".");
    assert!(!settings.search.recursive);
    assert_eq!(settings.search.exts, vec!["jpg", "png", "gif"]);
}

#[test]
fn settings_take_what_is_given() {
    let args = ArgValues {
        threads: text("4"),
        exts: vec!["BMP".to_string(), "Tiff".to_string()],
        no_default_exts: true,
        recursive: true,
        outfile: text("out.json"),
        hash_size: text("16"),
        hash_type: text("dct"),
        k_nearest: None,
        distance: text("0"),
        pretty_indent: text("2"),
        directory: text("/pics"),
    };
    let settings = args_to_settings(args).unwrap();
    assert_eq!(settings.threads, Some(4));
    assert_eq!(settings.hash, HashSettings { hash_size: 16, hash_type: HashType::DCT });
    assert_eq!(settings.compare_type, CompareMode::MaxDist(0));
    assert_eq!(settings.serialize.outfile, "out.json");
    assert_eq!(settings.serialize.pretty_indent, Some(2));
    assert_eq!(settings.search.dir, "/pics");
    assert!(settings.search.recursive);
    assert_eq!(settings.search.exts, vec!["bmp", "tiff"]);
    let more = ArgValues { exts: vec!["WebP".to_string()], k_nearest: text("0"), ..no_args() };
    let settings = args_to_settings(more).unwrap();
    assert_eq!(settings.search.exts, vec!["jpg", "png", "gif", "webp"]);
    assert_eq!(settings.compare_type, CompareMode::KNearest(0));
}

#[test]
fn wrong_options_are_named() {
    let cases: Vec<(ArgValues, ArgError)> = vec![
        (ArgValues { threads: text("0"), ..no_args() }, ArgError::Threads),
        (ArgValues { threads: text("four"), ..no_args() }, ArgError::Threads),
        (ArgValues { hash_size: text("0"), ..no_args() }, ArgError::HashSize),
        (ArgValues { hash_size: text("4294967296"), ..no_args() }, ArgError::HashSize),
        (ArgValues { hash_type: text("fftw"), ..no_args() }, ArgError::HashType),
        (ArgValues { k_nearest: text("3"), distance: text("2"), ..no_args() }, ArgError::Conflict),
        (ArgValues { k_nearest: text("-1"), ..no_args() }, ArgError::KNearest),
        (ArgValues { distance: text("near"), ..no_args() }, ArgError::Distance),
        (ArgValues { pretty_indent: text("0"), ..no_args() }, ArgError::PrettyIndent),
        (ArgValues { no_default_exts: true, ..no_args() }, ArgError::NoExtensions),
        // the first thing wrong is the one that is named
        (ArgValues { threads: text("0"), hash_size: text("0"), ..no_args() }, ArgError::Threads),
        (ArgValues { hash_type: text("x"), no_default_exts: true, ..no_args() }, ArgError::HashType),
    ];
    for (args, error) in cases {
        assert_eq!(args_to_settings(args).unwrap_err(), error);
    }
    assert_eq!(EXIT_SUCCESS, 0);
    assert_eq!(EXIT_FATAL_IO, 1);
    assert_eq!(EXIT_ARGUMENT_ERROR, 2);
}

#[test]
fn hash_size_may_be_as_large_as_it_fits() {
    let args = ArgValues { hash_size: text("4294967295"), ..no_args() };
    assert_eq!(args_to_settings(args).unwrap().hash.hash_size, u32::MAX);
}

#[test]
fn the_walk_goes_on_as_the_visitor_says() {
    assert_eq!(after_visit(WalkStep::Yield, true), WalkNext::Continue);
    assert_eq!(after_visit(WalkStep::Yield, false), WalkNext::Stop);
    assert_eq!(after_visit(WalkStep::Descend, true), WalkNext::Enter);
    assert_eq!(after_visit(WalkStep::Descend, false), WalkNext::Continue);
    assert_eq!(after_visit(WalkStep::Skip, true), WalkNext::Continue);
    assert_eq!(after_visit(WalkStep::Skip, false), WalkNext::Continue);
    assert_eq!(after_error(true), WalkNext::Continue);
    assert_eq!(after_error(false), WalkNext::Stop);
    assert!(matches!(event_for(WalkStep::Yield, "a.png".to_string()), Some(WalkEvent::File(p)) if p == "a.png"));
    assert!(matches!(event_for(WalkStep::Descend, "sub".to_string()), Some(WalkEvent::Dir(p)) if p == "sub"));
    assert!(event_for(WalkStep::Skip, "x".to_string()).is_none());
    assert_eq!(lowercase("JpEG-2000.Ä"), "jpeg-2000.Ä");
}

#[test]
fn the_stages_follow_each_other() {
    let mut ready = Ready::new();
    assert!(ready.on_event(WalkEvent::File("a.png".to_string())));
    assert!(ready.on_event(WalkEvent::Dir("sub".to_string())));
    assert!(ready.on_event(WalkEvent::File("sub/b.png".to_string())));
    assert!(ready.on_event(WalkEvent::Error(Error::io("locked".to_string()))));
    assert!(ready.on_event(WalkEvent::File("c.png".to_string())));
    assert_eq!(ready.paths, vec!["a.png", "sub/b.png", "c.png"]);
    assert_eq!(ready.dirs_visited, 2);
    assert_eq!(ready.errors.len(), 1);

    let settings = HashSettings::new(2, HashType::Mean).unwrap();
    let (mut queue, capacity, mut hashed) = ready.load_and_hash(settings);
    assert_eq!(capacity, 2);
    assert_eq!(hashed.status(), WorkStatus::default());
    assert!(!hashed.is_done());
    let mut before = hashed.status();
    while let Some(path) = queue.pop() {
        let result: WorkResult = if path == "c.png" {
            Err(Error::decode(path))
        } else {
            let value = if path == "a.png" { 0b0011 } else { 0b0111 };
            let mut image = item(&path, value, 4);
            image.image.path = path;
            Ok(image)
        };
        assert!(hashed.accept(result));
        let now = hashed.status();
        assert_eq!(now.count + now.errors, before.count + before.errors + 1);
        assert!(now.count >= before.count && now.errors >= before.errors);
        before = now;
    }
    assert!(hashed.is_done());
    assert_eq!(hashed.status().count + hashed.status().errors, 3);
    assert_eq!(hashed.status().count, 2);
    assert_eq!(hashed.status().total_bytes, 32);
    // nothing beyond what was to come is taken
    assert!(!hashed.accept(Err(Error::io("late".to_string()))));
    assert_eq!(hashed.status().errors, 1);

    let (found, similars) = hashed.collate(CompareMode::KNearest(5)).unwrap();
    assert_eq!(found.tree.len(), 2);
    assert_eq!(found.settings, settings);
    assert_eq!(found.errors.len(), 2);
    assert_eq!(found.errors[0].kind, ErrorKind::Io);
    assert_eq!(found.errors[1].kind, ErrorKind::Decode);
    assert_eq!(similars, vec![vec![Neighbor { index: 1, dist: 1 }], vec![Neighbor { index: 0, dist: 1 }]]);
}

#[test]
fn an_empty_run_is_done_at_once() {
    let (mut queue, capacity, hashed) = Ready::new().load_and_hash(HashSettings::default());
    assert_eq!(queue.pop(), None);
    assert_eq!(capacity, 1);
    assert!(hashed.is_done());
    let (found, similars) = hashed.collate(CompareMode::MaxDist(3)).unwrap();
    assert!(found.tree.is_empty());
    assert!(similars.is_empty());
}

#[test]
fn mixed_hash_sizes_stop_the_collation() {
    let mut ready = Ready::new();
    ready.on_event(WalkEvent::File("a".to_string()));
    ready.on_event(WalkEvent::File("b".to_string()));
    let (_, _, mut hashed) = ready.load_and_hash(HashSettings::default());
    hashed.accept(Ok(item("a", 1, 8)));
    hashed.accept(Ok(item("b", 1, 16)));
    let error = hashed.collate(CompareMode::KNearest(1)).unwrap_err();
    assert_eq!(error, ErrorKind::DimensionMismatch);
    assert!(error.is_fatal());
}

#[test]
fn a_prepared_hasher_hashes_like_the_settings() {
    let mut px = Vec::new();
    for i in 0..(24 * 24) {
        let v = ((i * 7) % 251) as u8;
        px.extend_from_slice(&[v, v / 3, 255 - v, 255]);
    }
    let image = RgbaImage::new(24, 24, px).unwrap();
    for kind in [HashType::Mean, HashType::Gradient, HashType::DoubleGradient, HashType::DCT, HashType::Block] {
        let settings = HashSettings::new(4, kind).unwrap();
        let hasher = settings.prepare();
        assert_eq!(hasher.settings(), settings);
        let first = hasher.hash(&image).unwrap();
        let second = hasher.hash(&image).unwrap();
        let direct = settings.hash(&image).unwrap();
        assert_eq!(first, second);
        assert_eq!(first, direct);
        assert_eq!(Some(first.size()), settings.bit_length());
    }
}

#[test]
fn hashed_images_are_equal_by_hash() {
    let a = item("a.png", 0b1010, 4);
    let b = item("b.png", 0b1010, 4);
    let c = item("a.png", 0b1011, 4);
    assert!(a == b);
    assert!(a != c);
    assert!(a.clone() == a);
}

#[test]
fn groups_by_threshold() {
    let mut manager = ImageManager::new(3);
    manager.add(item("a", 0b0000_0000, 8));
    manager.add(item("b", 0b0000_0011, 8));
    manager.add(item("c", 0b1111_0000, 8));
    manager.add(item("d", 0b0000_0001, 8));
    manager.add(item("e", 0b1111_0001, 8));
    manager.add(item("f", 0b0000_0000, 8));
    let groups = manager.into_vec();
    assert_eq!(groups.len(), 2);
    assert_eq!(groups[0].img().image.path, "a");
    let members: Vec<(String, u64)> =
        groups[0].similars().iter().map(|s| (s.img.image.path.clone(), s.dist)).collect();
    assert_eq!(
        members,
        vec![("f".to_string(), 0), ("d".to_string(), 1), ("b".to_string(), 2)]
    );
    assert_eq!(groups[1].img().image.path, "c");
    assert_eq!(groups[1].similars_len(), 1);
    assert_eq!(groups[1].similars()[0].dist, 1);
}

#[test]
fn members_at_the_same_distance_keep_their_order() {
    let mut group = UniqueImage::from_image(item("head", 0b0000, 4));
    assert!(group.add_similar(item("x", 0b0001, 4)).is_ok());
    assert!(group.add_similar(item("y", 0b0010, 4)).is_ok());
    assert!(group.add_similar(item("z", 0b0000, 4)).is_ok());
    assert!(group.add_similar(item("w", 0b0100, 4)).is_ok());
    let names: Vec<String> = group.similars().iter().map(|s| s.img.image.path.clone()).collect();
    assert_eq!(names, vec!["z", "x", "y", "w"]);
    assert!(group.is_similar(&item("q", 0b0001, 4), 2));
    assert!(group.is_similar(&item("q", 0b0001, 4), 1));
    assert!(!group.is_similar(&item("q", 0b0001, 4), 0));
    assert!(group.is_similar(&item("same", 0b0000, 4), 0));
    assert!(!group.is_similar(&item("q", 0b0001, 5), 100));
    let back = group.add_similar(item("odd", 0, 5)).unwrap_err();
    assert_eq!(back.image.path, "odd");
    assert_eq!(group.similars_len(), 4);
}

#[test]
fn a_member_can_become_the_head() {
    let mut group = UniqueImage::from_image(item("head", 0b0000, 4));
    group.add_similar(item("x", 0b0001, 4)).unwrap();
    group.add_similar(item("y", 0b0111, 4)).unwrap();
    group.add_similar(item("z", 0b1111, 4)).unwrap();
    let group = group.promote(2).unwrap();
    assert_eq!(group.img().image.path, "z");
    let members: Vec<(String, u64)> =
        group.similars().iter().map(|s| (s.img.image.path.clone(), s.dist)).collect();
    assert_eq!(
        members,
        vec![("y".to_string(), 1), ("x".to_string(), 3), ("head".to_string(), 4)]
    );
    let unchanged = group.promote(3).unwrap_err();
    assert_eq!(unchanged.img().image.path, "z");
    assert_eq!(unchanged.similars_len(), 3);
}

#[test]
fn results_are_received_into_groups() {
    let results: Vec<WorkResult> = vec![
        Ok(item("a", 0b0000, 4)),
        Err(Error::decode("bad".to_string())),
        Ok(item("b", 0b0001, 4)),
        Ok(item("c", 0b1111, 4)),
        Err(Error::io("gone".to_string())),
    ];
    let (total, groups, errors) = receive_images(results, 2);
    assert_eq!(total, 3);
    assert_eq!(groups.len(), 2);
    assert_eq!(groups[0].similars_len(), 1);
    assert_eq!(groups[1].similars_len(), 0);
    assert_eq!(errors.len(), 2);
    assert_eq!(errors[0].path, "bad");
    assert_eq!(errors[1].path, "gone");
    let mut groups = groups;
    manage_images(&mut groups, item("d", 0b1110, 4), 2);
    assert_eq!(groups[1].similars_len(), 1);
    manage_images(&mut groups, item("e", 0b0110, 4), 2);
    assert_eq!(groups.len(), 2);
    assert_eq!(groups[0].similars_len(), 2);
    manage_images(&mut groups, item("f", 0b0110, 4), 1);
    assert_eq!(groups.len(), 3);
    let mut manager = ImageManager::new(1);
    manager.add_all(vec![item("a", 1, 4), item("b", 1, 4), item("c", 2, 4)]);
    let groups = manager.into_vec();
    assert_eq!(groups.len(), 2);
    assert_eq!(groups[0].similars_len(), 1);
}

#[test]
fn exact_duplicates_are_grouped_at_threshold_zero() {
    let mut manager = ImageManager::new(0);
    manager.add_all(vec![
        item("a", 0b1010, 4),
        item("b", 0b1010, 4),
        item("c", 0b1011, 4),
        item("d", 0b1010, 4),
        item("e", 0b1011, 4),
    ]);
    let groups = manager.into_vec();
    assert_eq!(groups.len(), 2);
    assert_eq!(groups[0].img().image.path, "a");
    let names: Vec<String> = groups[0].similars().iter().map(|s| s.img.image.path.clone()).collect();
    assert_eq!(names, vec!["b", "d"]);
    assert_eq!(groups[1].img().image.path, "c");
    assert_eq!(groups[1].similars_len(), 1);
    assert_eq!(groups[1].similars()[0].dist, 0);
}
