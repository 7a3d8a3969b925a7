use rusty_2048::tile::Tile;

#[test]
fn test_from_str() {
    assert_eq!(Tile::from_ascii("."), Tile::new_empty());
    assert_eq!(Tile::from_ascii("64"), Tile::new_number(64));
    assert_eq!(Tile::from_ascii("*8"), Tile::new_multiplier(3));
    assert_eq!(Tile::from_ascii("/2"), Tile::new_divider(1));
    assert_eq!(Tile::from_ascii("B"), Tile::new_bomb());
}

#[test]
fn test_are_mergeable() {
    let empty = Tile::new_empty();
    let number2 = Tile::new_number(2);
    let number4 = Tile::new_number(4);
    let multiplier = Tile::new_multiplier(1);
    let divider = Tile::new_divider(1);
    let bomb = Tile::new_bomb();

    assert!(!Tile::are_mergeable(&empty, &empty));
    assert!(!Tile::are_mergeable(&empty, &number2));
    assert!(!Tile::are_mergeable(&empty, &multiplier));
    assert!(!Tile::are_mergeable(&empty, &divider));
    assert!(!Tile::are_mergeable(&empty, &bomb));

    assert!(!Tile::are_mergeable(&number2, &empty));
    assert!(Tile::are_mergeable(&number2, &number2));
    assert!(!Tile::are_mergeable(&number2, &number4));
    assert!(Tile::are_mergeable(&number2, &multiplier));
    assert!(Tile::are_mergeable(&number2, &divider));
    assert!(Tile::are_mergeable(&number2, &bomb));

    assert!(!Tile::are_mergeable(&multiplier, &empty));
    assert!(Tile::are_mergeable(&multiplier, &number2));
    assert!(Tile::are_mergeable(&multiplier, &multiplier));
    assert!(Tile::are_mergeable(&multiplier, &divider));
    assert!(Tile::are_mergeable(&multiplier, &bomb));

    assert!(!Tile::are_mergeable(&divider, &empty));
    assert!(Tile::are_mergeable(&divider, &number2));
    assert!(Tile::are_mergeable(&divider, &multiplier));
    assert!(Tile::are_mergeable(&divider, &divider));
    assert!(Tile::are_mergeable(&divider, &bomb));

    assert!(!Tile::are_mergeable(&bomb, &empty));
    assert!(Tile::are_mergeable(&bomb, &number2));
    assert!(Tile::are_mergeable(&bomb, &multiplier));
    assert!(Tile::are_mergeable(&bomb, &divider));
    assert!(Tile::are_mergeable(&bomb, &bomb));
}

#[test]
fn test_merge_tiles() {
    // Empty + Empty
    {
        let mut a = Tile::new_empty();
        let mut b = Tile::new_empty();
        let score = Tile::merge_tiles(&mut a, &mut b);

        assert_eq!(a, Tile::new_empty());
        assert_eq!(b, Tile::new_empty());
        assert_eq!(score, 0);
    }

    // Empty + Number
    {
        let mut a = Tile::new_empty();
        let mut b = Tile::new_number(2);
        let score = Tile::merge_tiles(&mut a, &mut b);

        assert_eq!(a, Tile::new_empty());
        assert_eq!(b, Tile::new_number(2));
        assert_eq!(score, 0);
    }

    // Empty + Multiplier
    {
        let mut a = Tile::new_empty();
        let mut b = Tile::new_multiplier(1);
        let score = Tile::merge_tiles(&mut a, &mut b);

        assert_eq!(a, Tile::new_empty());
        assert_eq!(b, Tile::new_multiplier(1));
        assert_eq!(score, 0);
    }

    // Empty + Divider
    {
        let mut a = Tile::new_empty();
        let mut b = Tile::new_divider(1);
        let score = Tile::merge_tiles(&mut a, &mut b);

        assert_eq!(a, Tile::new_empty());
        assert_eq!(b, Tile::new_divider(1));
        assert_eq!(score, 0);
    }

    // Empty + Bomb
    {
        let mut a = Tile::new_empty();
        let mut b = Tile::new_bomb();
        let score = Tile::merge_tiles(&mut a, &mut b);

        assert_eq!(a, Tile::new_empty());
        assert_eq!(b, Tile::new_bomb());
        assert_eq!(score, 0);
    }

    // Number + Empty
    {
        let mut a = Tile::new_number(2);
        let mut b = Tile::new_empty();
        let score = Tile::merge_tiles(&mut a, &mut b);

        assert_eq!(a, Tile::new_number(2));
        assert_eq!(b, Tile::new_empty());
        assert_eq!(score, 0);
    }

    // Number(2) + Number(2) => Number(4)
    {
        let mut a = Tile::new_number(2);
        let mut b = Tile::new_number(2);
        let score = Tile::merge_tiles(&mut a, &mut b);

        assert_eq!(a, Tile::new_number(4));
        assert_eq!(b, Tile::new_empty());
        assert_eq!(score, 4);
    }

    // Number(2) + Number(4) => Does Not Merge
    {
        let mut a = Tile::new_number(2);
        let mut b = Tile::new_number(4);
        let score = Tile::merge_tiles(&mut a, &mut b);

        assert_eq!(a, Tile::new_number(2));
        assert_eq!(b, Tile::new_number(4));
        assert_eq!(score, 0);
    }

    // Number + Multiplier
    {
        let mut a = Tile::new_number(2);
        let mut b = Tile::new_multiplier(1);
        let score = Tile::merge_tiles(&mut a, &mut b);

        assert_eq!(a, Tile::new_number(4));
        assert_eq!(b, Tile::new_empty());
        assert_eq!(score, 4);
    }

    // Number + Divider => Number
    {
        let mut a = Tile::new_number(2);
        let mut b = Tile::new_divider(1);
        let score = Tile::merge_tiles(&mut a, &mut b);

        assert_eq!(a, Tile::new_number(1));
        assert_eq!(b, Tile::new_empty());
        assert_eq!(score, -1);
    }

    // Number + Divider => Empty
    {
        let mut a = Tile::new_number(2);
        let mut b = Tile::new_divider(2);
        let score = Tile::merge_tiles(&mut a, &mut b);

        assert_eq!(a, Tile::new_empty());
        assert_eq!(b, Tile::new_empty());
        assert_eq!(score, 0);
    }

    // Number + Bomb
    {
        let mut a = Tile::new_number(2);
        let mut b = Tile::new_bomb();
        let score = Tile::merge_tiles(&mut a, &mut b);

        assert_eq!(a, Tile::new_empty());
        assert_eq!(b, Tile::new_empty());
        assert_eq!(score, -2);
    }

    // Multiplier + Empty
    {
        let mut a = Tile::new_multiplier(1);
        let mut b = Tile::new_empty();
        let score = Tile::merge_tiles(&mut a, &mut b);

        assert_eq!(a, Tile::new_multiplier(1));
        assert_eq!(b, Tile::new_empty());
        assert_eq!(score, 0);
    }

    // Multiplier + Number
    {
        let mut a = Tile::new_multiplier(1);
        let mut b = Tile::new_number(2);
        let score = Tile::merge_tiles(&mut a, &mut b);

        assert_eq!(a, Tile::new_number(4));
        assert_eq!(b, Tile::new_empty());
        assert_eq!(score, 4);
    }

    // Multiplier + Multiplier
    {
        let mut a = Tile::new_multiplier(1);
        let mut b = Tile::new_multiplier(2);
        let score = Tile::merge_tiles(&mut a, &mut b);

        assert_eq!(a, Tile::new_multiplier(3));
        assert_eq!(b, Tile::new_empty());
        assert_eq!(score, 0);
    }

    // Multiplier + Divider => Multiplier
    {
        let mut a = Tile::new_multiplier(2);
        let mut b = Tile::new_divider(1);
        let score = Tile::merge_tiles(&mut a, &mut b);

        assert_eq!(a, Tile::new_multiplier(1));
        assert_eq!(b, Tile::new_empty());
        assert_eq!(score, 0);
    }

    // Multiplier + Divider => Divider
    {
        let mut a = Tile::new_multiplier(1);
        let mut b = Tile::new_divider(2);
        let score = Tile::merge_tiles(&mut a, &mut b);

        assert_eq!(a, Tile::new_divider(1));
        assert_eq!(b, Tile::new_empty());
        assert_eq!(score, 0);
    }

    // Multiplier + Divider => Empty
    {
        let mut a = Tile::new_multiplier(1);
        let mut b = Tile::new_divider(1);
        let score = Tile::merge_tiles(&mut a, &mut b);

        assert_eq!(a, Tile::new_empty());
        assert_eq!(b, Tile::new_empty());
        assert_eq!(score, 0);
    }

    // Multiplier + Bomb
    {
        let mut a = Tile::new_multiplier(1);
        let mut b = Tile::new_bomb();
        let score = Tile::merge_tiles(&mut a, &mut b);

        assert_eq!(a, Tile::new_empty());
        assert_eq!(b, Tile::new_empty());
        assert_eq!(score, 0);
    }

    // Divider + Empty
    {
        let mut a = Tile::new_divider(1);
        let mut b = Tile::new_empty();
        let score = Tile::merge_tiles(&mut a, &mut b);

        assert_eq!(a, Tile::new_divider(1));
        assert_eq!(b, Tile::new_empty());
        assert_eq!(score, 0);
    }

    // Divider + Number => Number
    {
        let mut a = Tile::new_divider(1);
        let mut b = Tile::new_number(2);
        let score = Tile::merge_tiles(&mut a, &mut b);

        assert_eq!(a, Tile::new_number(1));
        assert_eq!(b, Tile::new_empty());
        assert_eq!(score, -1);
    }

    // Divider + Number => Empty
    {
        let mut a = Tile::new_divider(2);
        let mut b = Tile::new_number(2);
        let score = Tile::merge_tiles(&mut a, &mut b);

        assert_eq!(a, Tile::new_empty());
        assert_eq!(b, Tile::new_empty());
        assert_eq!(score, 0);
    }

    // Divider + Multiplier => Multiplier
    {
        let mut a = Tile::new_divider(1);
        let mut b = Tile::new_multiplier(2);
        let score = Tile::merge_tiles(&mut a, &mut b);

        assert_eq!(a, Tile::new_multiplier(1));
        assert_eq!(b, Tile::new_empty());
        assert_eq!(score, 0);
    }

    // Divider + Multiplier => Divider
    {
        let mut a = Tile::new_divider(2);
        let mut b = Tile::new_multiplier(1);
        let score = Tile::merge_tiles(&mut a, &mut b);

        assert_eq!(a, Tile::new_divider(1));
        assert_eq!(b, Tile::new_empty());
        assert_eq!(score, 0);
    }

    // Divider + Multiplier => Empty
    {
        let mut a = Tile::new_divider(1);
        let mut b = Tile::new_multiplier(1);
        let score = Tile::merge_tiles(&mut a, &mut b);

        assert_eq!(a, Tile::new_empty());
        assert_eq!(b, Tile::new_empty());
        assert_eq!(score, 0);
    }

    // Divider + Divider
    {
        let mut a = Tile::new_divider(1);
        let mut b = Tile::new_divider(2);
        let score = Tile::merge_tiles(&mut a, &mut b);

        assert_eq!(a, Tile::new_divider(3));
        assert_eq!(b, Tile::new_empty());
        assert_eq!(score, 0);
    }

    // Divider + Bomb
    {
        let mut a = Tile::new_divider(1);
        let mut b = Tile::new_bomb();
        let score = Tile::merge_tiles(&mut a, &mut b);

        assert_eq!(a, Tile::new_empty());
        assert_eq!(b, Tile::new_empty());
        assert_eq!(score, 0);
    }

    // Bomb + Empty
    {
        let mut a = Tile::new_bomb();
        let mut b = Tile::new_empty();
        let score = Tile::merge_tiles(&mut a, &mut b);

        assert_eq!(a, Tile::new_bomb());
        assert_eq!(b, Tile::new_empty());
        assert_eq!(score, 0);
    }

    // Bomb + Number
    {
        let mut a = Tile::new_bomb();
        let mut b = Tile::new_number(2);
        let score = Tile::merge_tiles(&mut a, &mut b);

        assert_eq!(a, Tile::new_empty());
        assert_eq!(b, Tile::new_empty());
        assert_eq!(score, -2);
    }

    // Bomb + Multiplier
    {
        let mut a = Tile::new_bomb();
        let mut b = Tile::new_multiplier(1);
        let score = Tile::merge_tiles(&mut a, &mut b);

        assert_eq!(a, Tile::new_empty());
        assert_eq!(b, Tile::new_empty());
        assert_eq!(score, 0);
    }

    // Bomb + Divider
    {
        let mut a = Tile::new_bomb();
        let mut b = Tile::new_divider(1);
        let score = Tile::merge_tiles(&mut a, &mut b);

        assert_eq!(a, Tile::new_empty());
        assert_eq!(b, Tile::new_empty());
        assert_eq!(score, 0);
    }

    // Bomb + Bomb
    {
        let mut a = Tile::new_bomb();
        let mut b = Tile::new_bomb();
        let score = Tile::merge_tiles(&mut a, &mut b);

        assert_eq!(a, Tile::new_empty());
        assert_eq!(b, Tile::new_empty());
        assert_eq!(score, 0);
    }
}

#[test]
fn ascii_text_of_tiles() {
    assert_eq!(Tile::new_empty().to_string(), ".");
    assert_eq!(Tile::new_number(128).to_string(), "128");
    assert_eq!(Tile::new_multiplier(3).to_string(), "*8");
    assert_eq!(Tile::new_divider(1).to_string(), "/2");
    assert_eq!(Tile::new_bomb().to_string(), "B");
    // The scalar is an i32 shift, which wraps for the largest powers.
    assert_eq!(Tile::new_multiplier(31).to_string(), "*-2147483648");
    assert_eq!(Tile::new_divider(32).to_string(), "/0");
}

#[test]
fn fancy_text_of_tiles() {
    assert_eq!(Tile::new_empty().get_fancy_string(), "");
    assert_eq!(Tile::new_number(2048).get_fancy_string(), "2\u{fe0f}\u{20e3}0\u{fe0f}\u{20e3}4\u{fe0f}\u{20e3}8\u{fe0f}\u{20e3}");
    assert_eq!(Tile::new_multiplier(2).get_fancy_string(), "\u{d7} 4");
    assert_eq!(Tile::new_divider(3).get_fancy_string(), "\u{f7} 8");
    assert_eq!(Tile::new_bomb().get_fancy_string(), "\u{1f4a3}");
}

#[test]
fn new_number_zero_is_empty() {
    assert_eq!(Tile::new_number(0), Tile::Empty);
    assert_eq!(Tile::new_number(0).get_value(), None);
    assert_eq!(Tile::new_number(7).get_value(), Some(7));
}

#[test]
fn from_ascii_reads_signs_and_zeros() {
    assert_eq!(Tile::from_ascii("+16"), Tile::Number(16));
    assert_eq!(Tile::from_ascii("0"), Tile::Empty);
    assert_eq!(Tile::from_ascii("*12"), Tile::Multiplier(3));
    assert_eq!(Tile::from_ascii("/1"), Tile::Divider(0));
}

#[test]
fn merging_is_symmetric() {
    let tiles = [
        Tile::new_number(4),
        Tile::new_multiplier(2),
        Tile::new_divider(1),
        Tile::new_bomb(),
    ];
    for a in tiles {
        for b in tiles {
            let (mut a1, mut b1) = (a, b);
            let (mut a2, mut b2) = (b, a);
            let s1 = Tile::merge_tiles(&mut a1, &mut b1);
            let s2 = Tile::merge_tiles(&mut a2, &mut b2);
            assert_eq!(Tile::are_mergeable(&a, &b), Tile::are_mergeable(&b, &a));
            assert_eq!(a1, a2);
            assert_eq!(s1, s2);
            assert_eq!(b1, Tile::Empty);
        }
    }
}

#[test]
fn merge_scores_keep_their_sign_past_i16() {
    let mut a = Tile::new_number(16384);
    let mut b = Tile::new_number(16384);
    assert_eq!(Tile::merge_tiles(&mut a, &mut b), i16::MAX);
    assert_eq!(a, Tile::Number(32768));

    let mut a = Tile::new_number(3);
    let mut b = Tile::new_multiplier(15);
    assert_eq!(Tile::merge_tiles(&mut a, &mut b), i16::MAX);
    assert_eq!(a, Tile::Number(32768));

    let mut a = Tile::new_number(16383);
    let mut b = Tile::new_number(16383);
    assert_eq!(Tile::merge_tiles(&mut a, &mut b), 32766);

    let mut a = Tile::new_number(40000);
    let mut b = Tile::new_bomb();
    assert_eq!(Tile::merge_tiles(&mut a, &mut b), i16::MIN);
    assert_eq!(a, Tile::Empty);

    let mut a = Tile::new_divider(0);
    let mut b = Tile::new_number(40000);
    assert_eq!(Tile::merge_tiles(&mut a, &mut b), i16::MIN);
    assert_eq!(a, Tile::Number(40000));

    let mut a = Tile::new_number(32767);
    let mut b = Tile::new_bomb();
    assert_eq!(Tile::merge_tiles(&mut a, &mut b), -32767);

    assert!(Tile::can_merge_safely(&Tile::Number(16384), &Tile::Number(16384)));
    assert!(!Tile::can_merge_safely(&Tile::Number(32768), &Tile::Number(32768)));
    assert!(!Tile::can_merge_safely(&Tile::Number(32768), &Tile::Bomb));
    assert!(!Tile::can_merge_safely(&Tile::Number(1), &Tile::Multiplier(16)));
    assert!(!Tile::can_merge_safely(&Tile::Multiplier(200), &Tile::Multiplier(100)));
    assert!(Tile::can_merge_safely(&Tile::Multiplier(200), &Tile::Divider(100)));
}
