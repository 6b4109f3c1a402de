use maidenhead::{
    grid_displacement, grid_to_longlat, longlat_to_grid, Displacement, MHError, LAT_MULT,
    LAT_OFFSET, LONG_MULT, LONG_OFFSET, TIERS, UNITS_PER_DEGREE,
};

#[test]
fn table_is_in_units() {
    assert_eq!(TIERS, 5);
    assert_eq!(LONG_OFFSET, 180 * UNITS_PER_DEGREE);
    assert_eq!(LAT_OFFSET, 90 * UNITS_PER_DEGREE);
    let minute = UNITS_PER_DEGREE / 60;
    let second = minute / 60;
    assert_eq!(
        LONG_MULT,
        [20 * UNITS_PER_DEGREE, 2 * UNITS_PER_DEGREE, 5 * minute, 30 * second, 5 * second / 4]
    );
    assert_eq!(
        LAT_MULT,
        [10 * UNITS_PER_DEGREE, UNITS_PER_DEGREE, 5 * minute / 2, 15 * second, 5 * second / 8]
    );
}

#[test]
fn decodes_to_the_centre_of_the_cell() {
    assert_eq!(grid_to_longlat("FM18"), Ok((-2_772_000_000, 1_386_000_000)));
    assert_eq!(grid_to_longlat("FM18lv"), Ok((-2_773_500_000, 1_400_250_000)));
    assert_eq!(grid_to_longlat("FM18lv53"), Ok((-2_773_350_000, 1_400_025_000)));
    assert_eq!(grid_to_longlat("FM18lv53SL"), Ok((-2_773_268_750, 1_400_021_875)));
}

#[test]
fn known_point_is_within_half_a_step_of_the_centre() {
    // 77.035278 degrees west, 38.889484 degrees north.
    let (long, lat): (i64, i64) = (-2_773_270_008, 1_400_021_424);
    for n in [4, 6, 8, 10] {
        let (centre_long, centre_lat) = grid_to_longlat(&"FM18lv53SL"[..n]).unwrap();
        assert!((centre_long - long).abs() <= LONG_MULT[n / 2 - 1] / 2);
        assert!((centre_lat - lat).abs() <= LAT_MULT[n / 2 - 1] / 2);
    }
}

#[test]
fn decodes_the_corners_of_the_globe() {
    // One degree east and half a degree north of the south-western corner.
    assert_eq!(grid_to_longlat("AA00"), Ok((-6_444_000_000, -3_222_000_000)));
    // Half a step of the finest tier short of the north-eastern corner.
    assert_eq!(grid_to_longlat("RR99xx99XX"), Ok((6_479_993_750, 3_239_996_875)));
    // The cell whose south-western corner is the origin.
    assert_eq!(grid_to_longlat("JJ00aa00aa"), Ok((6_250, 3_125)));
}

#[test]
fn letters_are_read_in_either_case() {
    let upper = grid_to_longlat("FM18LV53SL");
    assert_eq!(upper, Ok((-2_773_268_750, 1_400_021_875)));
    assert_eq!(grid_to_longlat("fm18lv53sl"), upper);
    assert_eq!(grid_to_longlat("fM18Lv53sL"), upper);
}

#[test]
fn letters_beyond_the_alphabet_are_read_too() {
    // The decoder asks for a letter, not for one within the alphabet: such a
    // cell lies off the globe or in a neighbouring step.
    assert_eq!(grid_to_longlat("ZZ99zz99ZZ"), Ok((12_246_018_750, 6_123_009_375)));
    assert_eq!(grid_to_longlat("SA00"), Ok((6_516_000_000, -3_222_000_000)));
    assert_eq!(
        longlat_to_grid(6_516_000_000, -3_222_000_000, 4),
        Err(MHError::InvalidLongLat(6_516_000_000, -3_222_000_000))
    );
    let (long, lat) = grid_to_longlat("AA00ZZ").unwrap();
    assert_eq!(longlat_to_grid(long, lat, 6).unwrap(), "AA11bb");
}

#[test]
fn wrong_class_is_invalid_grid() {
    // A digit where the subsquare wants a letter.
    assert_eq!(grid_to_longlat("AI021"), Err(MHError::InvalidGrid(String::from("AI021"))));
    // A letter where the square wants a digit.
    assert_eq!(grid_to_longlat("AIA2"), Err(MHError::InvalidGrid(String::from("AIA2"))));
    // A character outside ASCII.
    assert_eq!(grid_to_longlat("🤷I00"), Err(MHError::InvalidGrid(String::from("🤷I00"))));
    assert_eq!(grid_to_longlat("AA00AA00A🤷"), Err(MHError::InvalidGrid(String::from("AA00AA00A🤷"))));
    // Letters and digits of other scripts are not of the class either.
    assert_eq!(grid_to_longlat("ÀA00"), Err(MHError::InvalidGrid(String::from("ÀA00"))));
    assert_eq!(grid_to_longlat("AA٠0"), Err(MHError::InvalidGrid(String::from("AA٠0"))));
    assert_eq!(grid_to_longlat("AA 0"), Err(MHError::InvalidGrid(String::from("AA 0"))));
    assert_eq!(grid_to_longlat("A@00"), Err(MHError::InvalidGrid(String::from("A@00"))));
    assert_eq!(grid_to_longlat("A[00"), Err(MHError::InvalidGrid(String::from("A[00"))));
    assert_eq!(grid_to_longlat("A`00"), Err(MHError::InvalidGrid(String::from("A`00"))));
    assert_eq!(grid_to_longlat("A{00"), Err(MHError::InvalidGrid(String::from("A{00"))));
    assert_eq!(grid_to_longlat("AA/0"), Err(MHError::InvalidGrid(String::from("AA/0"))));
    assert_eq!(grid_to_longlat("AA:0"), Err(MHError::InvalidGrid(String::from("AA:0"))));
}

#[test]
fn wrong_length_is_invalid_grid_length() {
    assert_eq!(grid_to_longlat(""), Err(MHError::InvalidGridLength(0)));
    assert_eq!(grid_to_longlat("A"), Err(MHError::InvalidGridLength(1)));
    assert_eq!(grid_to_longlat("AA"), Err(MHError::InvalidGridLength(2)));
    assert_eq!(grid_to_longlat("AA0"), Err(MHError::InvalidGridLength(3)));
    assert_eq!(grid_to_longlat("AA00A"), Err(MHError::InvalidGridLength(5)));
    assert_eq!(grid_to_longlat("AA00AA0"), Err(MHError::InvalidGridLength(7)));
    assert_eq!(grid_to_longlat("AA00AA00A"), Err(MHError::InvalidGridLength(9)));
    assert_eq!(grid_to_longlat("AA00AA00AA0"), Err(MHError::InvalidGridLength(11)));
    assert_eq!(grid_to_longlat("AA00AA00AA00"), Err(MHError::InvalidGridLength(12)));
}

#[test]
fn class_is_judged_before_length_and_only_in_the_first_ten() {
    assert_eq!(grid_to_longlat("A1"), Err(MHError::InvalidGrid(String::from("A1"))));
    assert_eq!(
        grid_to_longlat("AA00AA00A000"),
        Err(MHError::InvalidGrid(String::from("AA00AA00A000")))
    );
    // What follows the tenth character is counted, in bytes, and not read.
    assert_eq!(grid_to_longlat("AA00AA00AA!!"), Err(MHError::InvalidGridLength(12)));
    assert_eq!(grid_to_longlat("AA00AA00AA🤷"), Err(MHError::InvalidGridLength(14)));
}

#[test]
fn encodes_the_cell_of_a_point() {
    assert_eq!(longlat_to_grid(0, 0, 10).unwrap(), "JJ00aa00AA");
    assert_eq!(longlat_to_grid(-1, -1, 10).unwrap(), "II99xx99XX");
    assert_eq!(longlat_to_grid(-LONG_OFFSET, -LAT_OFFSET, 10).unwrap(), "AA00aa00AA");
    assert_eq!(longlat_to_grid(LONG_OFFSET - 1, LAT_OFFSET - 1, 10).unwrap(), "RR99xx99XX");
    assert_eq!(longlat_to_grid(-4_402_500_000, 1_350_750_000, 6).unwrap(), "CM87um");
    assert_eq!(longlat_to_grid(763_500_000, 2_337_750_000, 6).unwrap(), "KP04ow");
}

#[test]
fn edge_of_the_globe_is_accepted() {
    // Both bounds belong to the globe; the step past the last field is
    // written with the letter after R.
    assert_eq!(longlat_to_grid(LONG_OFFSET, LAT_OFFSET, 10).unwrap(), "SS00aa00AA");
    assert_eq!(longlat_to_grid(LONG_OFFSET, 0, 4).unwrap(), "SJ00");
    assert_eq!(longlat_to_grid(0, LAT_OFFSET, 4).unwrap(), "JS00");
}

#[test]
fn cell_boundaries_belong_to_the_cell_east_and_north() {
    let long = -LONG_OFFSET + 5 * LONG_MULT[0] + LONG_MULT[1];
    let lat = -LAT_OFFSET + 12 * LAT_MULT[0] + 8 * LAT_MULT[1];
    assert_eq!(longlat_to_grid(long, lat, 10).unwrap(), "FM18aa00AA");
    assert_eq!(longlat_to_grid(long - 1, lat, 10).unwrap(), "FM08xa90XA");
    assert_eq!(longlat_to_grid(long, lat - 1, 10).unwrap(), "FM17ax09AX");
}

#[test]
fn precision_truncates() {
    let whole = longlat_to_grid(-2_773_270_008, 1_400_021_424, 10).unwrap();
    assert_eq!(whole, "FM18lv53SL");
    for n in [4, 6, 8] {
        assert_eq!(longlat_to_grid(-2_773_270_008, 1_400_021_424, n).unwrap(), whole[..n]);
    }
}

#[test]
fn invalid_precision_whatever_the_point() {
    for precision in [0, 1, 2, 3, 5, 7, 9, 11, 12, usize::MAX] {
        for (long, lat) in [
            (0, 0),
            (-2_773_270_008, 1_400_021_424),
            (LONG_OFFSET + 1, 0),
            (0, -LAT_OFFSET - 1),
            (i64::MAX, i64::MIN),
        ] {
            assert_eq!(
                longlat_to_grid(long, lat, precision),
                Err(MHError::InvalidGridLength(precision))
            );
        }
    }
}

#[test]
fn off_the_globe_is_invalid_long_lat() {
    let long = -201 * UNITS_PER_DEGREE;
    let lat = 38_900_000 * 36;
    assert_eq!(longlat_to_grid(long, lat, 10), Err(MHError::InvalidLongLat(long, lat)));
    let long = -77 * UNITS_PER_DEGREE;
    let lat = 921 * UNITS_PER_DEGREE;
    assert_eq!(longlat_to_grid(long, lat, 10), Err(MHError::InvalidLongLat(long, lat)));
    for (long, lat) in [
        (LONG_OFFSET + 1, 0),
        (-LONG_OFFSET - 1, 0),
        (0, LAT_OFFSET + 1),
        (0, -LAT_OFFSET - 1),
        // A latitude that would do as a longitude is no latitude.
        (0, LONG_OFFSET),
        (i64::MIN, i64::MAX),
    ] {
        for precision in [4, 6, 8, 10] {
            assert_eq!(
                longlat_to_grid(long, lat, precision),
                Err(MHError::InvalidLongLat(long, lat))
            );
        }
    }
}

#[test]
fn round_trip_gives_the_locator_back() {
    for grid in [
        "AA00", "RR99", "JJ00", "FM18", "IO91", "AA00aa", "RR99xx", "CM87um", "KP04ow", "FM18lv",
        "AA00aa00", "RR99xx99", "FM18lv53", "AA00aa00AA", "RR99xx99XX", "FM18lv53SL",
        "JO62qm27XJ", "BL11bh16OO",
    ] {
        let (long, lat) = grid_to_longlat(grid).unwrap();
        assert_eq!(longlat_to_grid(long, lat, grid.len()).unwrap(), grid);
    }
}

#[test]
fn round_trip_normalizes_case() {
    for grid in ["fm18LV53sl", "FM18LV53SL", "fm18lv53sl", "Fm18lV53sL"] {
        let (long, lat) = grid_to_longlat(grid).unwrap();
        assert_eq!(longlat_to_grid(long, lat, 10).unwrap(), "FM18lv53SL");
    }
}

#[test]
fn round_trip_over_every_symbol() {
    // Each symbol of each position in turn, the others held at their first.
    let alphabets = [
        "ABCDEFGHIJKLMNOPQR",
        "ABCDEFGHIJKLMNOPQR",
        "0123456789",
        "0123456789",
        "abcdefghijklmnopqrstuvwx",
        "abcdefghijklmnopqrstuvwx",
        "0123456789",
        "0123456789",
        "ABCDEFGHIJKLMNOPQRSTUVWX",
        "ABCDEFGHIJKLMNOPQRSTUVWX",
    ];
    for position in 0..10 {
        for symbol in alphabets[position].chars() {
            let mut grid = String::from("AA00aa00AA");
            grid.replace_range(position..position + 1, &symbol.to_string());
            for n in [4, 6, 8, 10] {
                let (long, lat) = grid_to_longlat(&grid[..n]).unwrap();
                assert_eq!(longlat_to_grid(long, lat, n).unwrap(), grid[..n]);
            }
        }
    }
}

#[test]
fn point_lies_in_the_cell_of_its_locator() {
    for (long, lat) in [
        (0, 0),
        (-2_773_270_008, 1_400_021_424),
        (-LONG_OFFSET, -LAT_OFFSET),
        (LONG_OFFSET - 1, LAT_OFFSET - 1),
        (123_456_789, -987_654_321),
    ] {
        for n in [4, 6, 8, 10] {
            let grid = longlat_to_grid(long, lat, n).unwrap();
            let (centre_long, centre_lat) = grid_to_longlat(&grid).unwrap();
            let (half_long, half_lat) = (LONG_MULT[n / 2 - 1] / 2, LAT_MULT[n / 2 - 1] / 2);
            assert!(centre_long - half_long <= long && long < centre_long + half_long);
            assert!(centre_lat - half_lat <= lat && lat < centre_lat + half_lat);
        }
    }
}

#[test]
fn displacement_between_two_cells() {
    assert_eq!(
        grid_displacement("CM87um", "KP04ow"),
        Ok(Displacement {
            from_lat: 1_350_750_000,
            to_lat: 2_337_750_000,
            delta_long: 763_500_000 + 4_402_500_000,
            delta_lat: 2_337_750_000 - 1_350_750_000,
        })
    );
    // The other way round, the differences change sign.
    assert_eq!(
        grid_displacement("KP04ow", "CM87um"),
        Ok(Displacement {
            from_lat: 2_337_750_000,
            to_lat: 1_350_750_000,
            delta_long: -763_500_000 - 4_402_500_000,
            delta_lat: 1_350_750_000 - 2_337_750_000,
        })
    );
}

#[test]
fn displacement_between_locators_of_different_length() {
    assert_eq!(
        grid_displacement("FM18", "FM18lv53SL"),
        Ok(Displacement {
            from_lat: 1_386_000_000,
            to_lat: 1_400_021_875,
            delta_long: -2_773_268_750 + 2_772_000_000,
            delta_lat: 1_400_021_875 - 1_386_000_000,
        })
    );
}

#[test]
fn no_displacement_from_a_cell_to_itself() {
    for grid in ["AA00", "RR99xx99XX", "FM18lv53SL", "CM87um", "zz99"] {
        let d = grid_displacement(grid, grid).unwrap();
        assert_eq!(d.delta_long, 0);
        assert_eq!(d.delta_lat, 0);
        assert_eq!(d.from_lat, d.to_lat);
        assert_eq!(d.from_lat, grid_to_longlat(grid).unwrap().1);
    }
    // Nor between two spellings of one locator.
    let d = grid_displacement("fm18LV", "FM18lv").unwrap();
    assert_eq!((d.delta_long, d.delta_lat), (0, 0));
}

#[test]
fn displacement_passes_the_first_error_on() {
    assert_eq!(
        grid_displacement("AIA2", "KP04ow"),
        Err(MHError::InvalidGrid(String::from("AIA2")))
    );
    assert_eq!(grid_displacement("CM87um", "KP0"), Err(MHError::InvalidGridLength(3)));
    // Where both are refused, the error is that of the start.
    assert_eq!(grid_displacement("CM87u", "K204"), Err(MHError::InvalidGridLength(5)));
    assert_eq!(
        grid_displacement("K204", "CM87u"),
        Err(MHError::InvalidGrid(String::from("K204")))
    );
}
