use surfacetable::ast::{Character, GroupData, PoseData, Root};
use surfacetable::digits::{count_digits, decimal_string};
use surfacetable::encoding::{checked_combine_number, combine_number};
use surfacetable::limits::{
    checked_build_surfacetable, checked_max_code, checked_surface_offset, surface_block_fits,
    surfacetable_fits,
};
use surfacetable::offset::generate_surface_offset;
use surfacetable::selection::{generate_surfaces, SurfacePart};
use surfacetable::table::{build_surfacetable, build_surfacetable_by_character, surface_label};

fn sized_group(label: &str, poses: usize) -> GroupData {
    let mut details = Vec::new();
    for i in 0..poses {
        details.push(PoseData::new(format!("{}{}", label, i + 1), String::new()));
    }
    GroupData::new(label.to_string(), details)
}

fn sized_character(sizes: &[usize]) -> Character {
    let mut parts = Vec::new();
    for (i, size) in sizes.iter().enumerate() {
        parts.push(sized_group(&format!("g{}p", i), *size));
    }
    Character::new(None, parts)
}

fn rows_of(block: &str) -> Vec<(usize, String)> {
    let mut rows = Vec::new();
    for line in block.lines() {
        if let Some((id, label)) = line.split_once(',') {
            if let Ok(id) = id.parse::<usize>() {
                rows.push((id, label.to_string()));
            }
        }
    }
    rows
}

#[test]
fn width_is_the_number_of_decimal_digits() {
    assert_eq!(count_digits(0), 0);
    assert_eq!(count_digits(9), 1);
    assert_eq!(count_digits(10), 2);
    assert_eq!(count_digits(99), 2);
    assert_eq!(count_digits(100), 3);
    assert_eq!(count_digits(usize::MAX), usize::MAX.to_string().len());
    for n in 1..5000usize {
        assert_eq!(count_digits(n), n.to_string().len());
    }
}

#[test]
fn decimal_text_is_what_std_prints() {
    for n in [0usize, 7, 10, 99, 100, 305, 1000, 12345, usize::MAX] {
        assert_eq!(decimal_string(n), n.to_string());
    }
}

#[test]
fn enumeration_has_as_many_vectors_as_the_product_of_the_counts() {
    let character = sized_character(&[3, 2, 4]);
    assert_eq!(generate_surfaces(character.parts()).len(), 24);
    let character = sized_character(&[12, 1, 10]);
    assert_eq!(generate_surfaces(character.parts()).len(), 120);
    let character = sized_character(&[5]);
    assert_eq!(generate_surfaces(character.parts()).len(), 5);
}

#[test]
fn group_without_poses_leaves_no_vector() {
    let character = sized_character(&[3, 0, 4]);
    assert!(generate_surfaces(character.parts()).is_empty());
    let character = sized_character(&[0]);
    assert!(generate_surfaces(character.parts()).is_empty());
}

#[test]
fn character_without_groups_has_no_vector() {
    let character = sized_character(&[]);
    assert!(generate_surfaces(character.parts()).is_empty());
    assert_eq!(build_surfacetable_by_character(&character, 0, 1, None, "-"), "");
    let root = Root::new(None, vec![character]);
    assert_eq!(build_surfacetable(&root, None, "-"), "charset,UTF-8\nversion,1\n");
}

#[test]
fn enumeration_runs_like_an_odometer() {
    let character = sized_character(&[2, 2]);
    let numbers: Vec<Vec<usize>> = generate_surfaces(character.parts())
        .iter()
        .map(|v| v.iter().map(|p| p.number).collect())
        .collect();
    assert_eq!(numbers, vec![vec![1, 1], vec![1, 2], vec![2, 1], vec![2, 2]]);

    let sizes = [3usize, 1, 12, 2];
    let character = sized_character(&sizes);
    let surfaces = generate_surfaces(character.parts());
    for (rank, vector) in surfaces.iter().enumerate() {
        let mut weight = 1;
        for j in (0..sizes.len()).rev() {
            assert_eq!(vector[j].number, 1 + (rank / weight) % sizes[j]);
            assert_eq!(vector[j].digits, count_digits(sizes[j]));
            weight *= sizes[j];
        }
    }
}

#[test]
fn combine_writes_the_fields_side_by_side() {
    let v = vec![SurfacePart { number: 1, digits: 1 }, SurfacePart { number: 1, digits: 1 }];
    assert_eq!(combine_number(&v), 11);
    let v = vec![
        SurfacePart { number: 1, digits: 1 },
        SurfacePart { number: 1, digits: 1 },
        SurfacePart { number: 1, digits: 1 },
    ];
    assert_eq!(combine_number(&v), 111);
    let v = vec![
        SurfacePart { number: 12, digits: 2 },
        SurfacePart { number: 7, digits: 3 },
        SurfacePart { number: 4, digits: 1 },
    ];
    assert_eq!(combine_number(&v), 120074);
    assert_eq!(combine_number(&Vec::new()), 0);
}

#[test]
fn combine_is_injective_and_its_fields_give_the_selection_back() {
    let sizes = [12usize, 3, 10];
    let character = sized_character(&sizes);
    let surfaces = generate_surfaces(character.parts());
    let mut seen = Vec::new();
    for vector in surfaces.iter() {
        let code = combine_number(vector);
        assert!(!seen.contains(&code));
        seen.push(code);
        let mut rest = code;
        for j in (0..sizes.len()).rev() {
            let field = 10usize.pow(vector[j].digits as u32);
            assert_eq!(rest % field, vector[j].number);
            rest /= field;
        }
        assert_eq!(rest, 0);
    }
    assert_eq!(seen.len(), 360);
}

#[test]
fn combine_reports_a_number_out_of_range() {
    let wide = SurfacePart { number: 999_999_999, digits: 10 };
    assert_eq!(checked_combine_number(&vec![wide, wide, wide]), None);
    let v = vec![SurfacePart { number: 3, digits: 1 }, SurfacePart { number: 5, digits: 2 }];
    assert_eq!(checked_combine_number(&v), Some(305));
    let zero = SurfacePart { number: 0, digits: 40 };
    assert_eq!(checked_combine_number(&vec![zero, zero, SurfacePart { number: 8, digits: 1 }]), Some(8));
    assert_eq!(checked_combine_number(&vec![SurfacePart { number: 1, digits: 1 }, zero]), None);
}

#[test]
fn offset_is_the_power_of_ten_above_the_largest_number() {
    assert_eq!(generate_surface_offset(&[]), 1);
    assert_eq!(generate_surface_offset(&[sized_character(&[0])]), 1);
    assert_eq!(generate_surface_offset(&[sized_character(&[2, 2])]), 100);
    assert_eq!(generate_surface_offset(&[sized_character(&[2, 2]), sized_character(&[2, 2, 2])]), 1000);
    assert_eq!(generate_surface_offset(&[sized_character(&[12, 3]), sized_character(&[2])]), 1000);
    assert_eq!(generate_surface_offset(&[sized_character(&[9])]), 10);
    assert_eq!(generate_surface_offset(&[sized_character(&[10])]), 100);
    let characters = [sized_character(&[2, 2]), sized_character(&[12, 3]), sized_character(&[0, 5])];
    assert_eq!(checked_surface_offset(&characters), Some(generate_surface_offset(&characters)));
    assert_eq!(checked_max_code(&characters[1]), Some(123));
    assert_eq!(checked_max_code(&characters[2]), Some(0));
}

#[test]
fn surface_numbers_of_different_characters_never_meet() {
    let characters = vec![
        sized_character(&[2, 2]),
        sized_character(&[11, 3]),
        sized_character(&[4]),
        sized_character(&[2, 2, 2]),
    ];
    let root = Root::new(None, characters);
    assert!(surfacetable_fits(&root));
    let offset = generate_surface_offset(root.characters());
    assert_eq!(offset, 1000);
    let mut seen: Vec<usize> = Vec::new();
    for (index, character) in root.characters().iter().enumerate() {
        let block = build_surfacetable_by_character(character, index, offset, None, "-");
        let rows = rows_of(&block);
        assert_eq!(rows.len(), generate_surfaces(character.parts()).len());
        for (id, _) in rows {
            assert!(!seen.contains(&id));
            assert_eq!(id / offset, index);
            seen.push(id);
        }
    }
    assert_eq!(seen.len(), 4 + 33 + 4 + 8);
}

#[test]
fn final_id_is_index_times_offset_plus_code() {
    let characters = vec![sized_character(&[2, 2]), sized_character(&[2, 2, 2])];
    let offset = generate_surface_offset(&characters);
    let block = build_surfacetable_by_character(&characters[1], 1, offset, None, "-");
    let rows = rows_of(&block);
    let surfaces = generate_surfaces(characters[1].parts());
    assert_eq!(rows.len(), 8);
    for (row, vector) in rows.iter().zip(surfaces.iter()) {
        assert_eq!(row.0, 1000 + combine_number(vector));
    }
    assert_eq!(rows[0].0, 1111);
    assert_eq!(rows[1].0, 1112);
    assert_eq!(rows[7].0, 1222);
}

#[test]
fn whitelist_keeps_exactly_the_numbers_it_names() {
    let character = sized_character(&[3, 4]);
    let all: Vec<usize> =
        rows_of(&build_surfacetable_by_character(&character, 2, 100, None, "-")).iter().map(|r| r.0).collect();
    assert_eq!(all.len(), 12);
    let whitelist = vec![211, 999, 234, 14, 222, 211];
    let kept: Vec<usize> =
        rows_of(&build_surfacetable_by_character(&character, 2, 100, Some(&whitelist), "-")).iter().map(|r| r.0).collect();
    assert_eq!(kept, vec![211, 222, 234]);
    for id in 0..1000usize {
        assert_eq!(kept.contains(&id), all.contains(&id) && whitelist.contains(&id));
    }
}

#[test]
fn whitelist_that_names_nothing_of_a_character_drops_its_block() {
    let root = Root::new(None, vec![sized_character(&[2, 2]), sized_character(&[2, 2, 2])]);
    let whitelist = vec![1212];
    assert_eq!(
        build_surfacetable(&root, Some(&whitelist), "-"),
        "charset,UTF-8\nversion,1\n\ngroup,\\1\n{\nscope,1\n1212,g0p2-g1p1-g2p2\n}\n"
    );
    let nothing: Vec<usize> = Vec::new();
    assert_eq!(build_surfacetable(&root, Some(&nothing), "-"), "charset,UTF-8\nversion,1\n");
}

#[test]
fn building_twice_gives_the_same_text() {
    let root = Root::new(None, vec![sized_character(&[2, 3]), sized_character(&[4, 1, 2])]);
    let whitelist = vec![11, 13, 1412];
    let first = build_surfacetable(&root, Some(&whitelist), "+");
    let second = build_surfacetable(&root, Some(&whitelist), "+");
    assert_eq!(first, second);
    assert_eq!(first.as_bytes(), second.as_bytes());
    assert_eq!(build_surfacetable(&root, None, "-"), build_surfacetable(&root.clone(), None, "-"));
}

#[test]
fn two_group_character_gives_four_rows() {
    let character = Character::new(
        None,
        vec![
            GroupData::new(
                "a".to_string(),
                vec![
                    PoseData::new("testA01".to_string(), String::new()),
                    PoseData::new("testA02".to_string(), String::new()),
                ],
            ),
            GroupData::new(
                "b".to_string(),
                vec![
                    PoseData::new("testB01".to_string(), String::new()),
                    PoseData::new("testB02".to_string(), String::new()),
                ],
            ),
        ],
    );
    let root = Root::new(None, vec![character]);
    let table = build_surfacetable(&root, None, "-");
    assert_eq!(
        rows_of(&table),
        vec![
            (11, "testA01-testB01".to_string()),
            (12, "testA01-testB02".to_string()),
            (21, "testA02-testB01".to_string()),
            (22, "testA02-testB02".to_string()),
        ]
    );
    let whitelist = vec![11];
    let table = build_surfacetable(&root, Some(&whitelist), "-");
    assert_eq!(table, "charset,UTF-8\nversion,1\n\ngroup,\\0\n{\nscope,0\n11,testA01-testB01\n}\n");
}

#[test]
fn label_joins_the_names_with_the_separator() {
    let character = sized_character(&[2, 3, 1]);
    let v = vec![
        SurfacePart { number: 2, digits: 1 },
        SurfacePart { number: 3, digits: 1 },
        SurfacePart { number: 1, digits: 1 },
    ];
    assert_eq!(surface_label(&character, &v, "-"), "g0p2-g1p3-g2p1");
    assert_eq!(surface_label(&character, &v, ""), "g0p2g1p3g2p1");
    assert_eq!(surface_label(&character, &v, " / "), "g0p2 / g1p3 / g2p1");
    assert_eq!(surface_label(&character, &Vec::new(), "-"), "");
}

#[test]
fn label_leaves_out_what_it_cannot_find() {
    let character = sized_character(&[2, 3]);
    let part = |number: usize| SurfacePart { number, digits: 1 };
    assert_eq!(surface_label(&character, &vec![part(2), part(4)], "-"), "g0p2");
    assert_eq!(surface_label(&character, &vec![part(0), part(3)], "-"), "g1p3");
    assert_eq!(surface_label(&character, &vec![part(3), part(0)], "-"), "");
    assert_eq!(surface_label(&character, &vec![part(1), part(1), part(1)], "-"), "g0p1-g1p1");
    assert_eq!(surface_label(&character, &vec![part(1), part(9), part(1)], "::"), "g0p1");
}

#[test]
fn label_loses_only_one_separator_at_its_end() {
    let character = Character::new(
        None,
        vec![
            GroupData::new("a".to_string(), vec![PoseData::new("x-".to_string(), String::new())]),
            GroupData::new("b".to_string(), vec![PoseData::new("-".to_string(), String::new())]),
        ],
    );
    let v = vec![SurfacePart { number: 1, digits: 1 }, SurfacePart { number: 1, digits: 1 }];
    assert_eq!(surface_label(&character, &v, "-"), "x---");
    assert_eq!(build_surfacetable_by_character(&character, 0, 100, None, "-"), "\ngroup,\\0\n{\nscope,0\n11,x---\n}\n");
}

#[test]
fn wide_groups_take_wide_fields() {
    let character = sized_character(&[10, 2]);
    let surfaces = generate_surfaces(character.parts());
    assert_eq!(surfaces[0], vec![SurfacePart { number: 1, digits: 2 }, SurfacePart { number: 1, digits: 1 }]);
    let block = build_surfacetable_by_character(&character, 3, 1000, None, "_");
    let rows = rows_of(&block);
    assert_eq!(rows[0], (3011, "g0p1_g1p1".to_string()));
    assert_eq!(rows[19], (3102, "g0p10_g1p2".to_string()));
    assert!(block.starts_with("\ngroup,\\3\n{\nscope,3\n3011,"));
    assert!(block.ends_with("3102,g0p10_g1p2\n}\n"));
}

#[test]
fn range_test_tells_what_fits() {
    let character = sized_character(&[2, 2]);
    assert!(surface_block_fits(&character, 0, usize::MAX));
    assert!(surface_block_fits(&character, 1, usize::MAX - 22));
    assert!(!surface_block_fits(&character, 1, usize::MAX - 21));
    assert!(!surface_block_fits(&character, 2, usize::MAX));
    let barren = sized_character(&[2, 0]);
    assert!(surface_block_fits(&barren, usize::MAX, usize::MAX));
    assert!(surfacetable_fits(&Root::new(None, Vec::new())));
    assert_eq!(
        checked_build_surfacetable(&Root::new(None, Vec::new()), None, "-"),
        Some("charset,UTF-8\nversion,1\n".to_string())
    );
    assert!(surfacetable_fits(&Root::new(Some("raw".to_string()), vec![character, barren])));
}

#[test]
fn range_test_refuses_what_leaves_the_range() {
    let huge = Root::new(None, vec![sized_character(&[10; 20])]);
    assert_eq!(checked_max_code(&huge.characters()[0]), None);
    assert_eq!(checked_surface_offset(huge.characters()), None);
    assert!(!surfacetable_fits(&huge));
    assert_eq!(checked_build_surfacetable(&huge, None, "-"), None);
    if usize::BITS == 64 {
        let nines = sized_character(&[9; 19]);
        assert_eq!(checked_max_code(&nines), Some(9_999_999_999_999_999_999));
        assert_eq!(checked_surface_offset(&[nines.clone()]), Some(10_000_000_000_000_000_000));
        assert!(surfacetable_fits(&Root::new(None, vec![nines.clone()])));
        assert!(!surfacetable_fits(&Root::new(None, vec![nines.clone(), nines])));
        let tens = sized_character(&[9; 20]);
        assert_eq!(checked_max_code(&tens), None);
    }
}
