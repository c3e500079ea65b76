use wgpu_mc_core::blockstate::{find_variant, key_string, model_key, variant_key, StateValue};
use wgpu_mc_core::blockstate::{block_index, map_block_states, read_variant_key, variant_id_is_readable, StateSlot};

fn text(s: &str) -> StateValue {
    StateValue::String(s.to_string())
}

fn show(key: &[(String, StateValue)]) -> Vec<(String, String)> {
    key.iter()
        .map(|(name, value)| {
            (
                name.clone(),
                match value {
                    StateValue::Bool(b) => format!("bool:{b}"),
                    StateValue::String(s) => format!("text:{s}"),
                },
            )
        })
        .collect()
}

#[test]
fn a_variant_id_reads_as_its_properties() {
    let key = variant_key("facing=north,lit=true,half=false");
    assert_eq!(
        show(&key),
        vec![
            ("facing".to_string(), "text:north".to_string()),
            ("lit".to_string(), "bool:true".to_string()),
            ("half".to_string(), "bool:false".to_string()),
        ]
    );
}

#[test]
fn empty_parts_and_the_empty_id_name_nothing() {
    assert!(variant_key("").is_empty());
    assert!(variant_key(",,").is_empty());
    assert_eq!(show(&variant_key(",axis=y,")), vec![("axis".to_string(), "text:y".to_string())]);
    // A second `=` ends the value.
    assert_eq!(show(&variant_key("a=b=c")), vec![("a".to_string(), "text:b".to_string())]);
}

#[test]
fn properties_are_written_back_as_the_key_they_came_from() {
    let id = "facing=north,lit=true,waterlogged=false";
    assert_eq!(key_string(&variant_key(id)), id);
    assert_eq!(key_string(&Vec::new()), "");
    assert_eq!(key_string(&vec![("age".to_string(), text("7"))]), "age=7");
}

#[test]
fn the_first_variant_with_a_model_whose_properties_all_match_is_drawn() {
    let variants: Vec<(Vec<(String, StateValue)>, Vec<u32>)> = vec![
        (variant_key("facing=north,lit=true"), vec![]),
        (variant_key("facing=north,lit=true"), vec![1]),
        (variant_key("facing=north"), vec![2]),
        (variant_key(""), vec![3]),
    ];
    let key = variant_key("facing=north,lit=true");
    // The first has no model, so the second is drawn.
    assert_eq!(find_variant(&variants, &key), Some(1));
    let unlit = variant_key("lit=false,facing=north");
    assert_eq!(find_variant(&variants, &unlit), Some(2));
    let south = variant_key("facing=south");
    assert_eq!(find_variant(&variants, &south), Some(3));
    let none: Vec<(Vec<(String, StateValue)>, Vec<u32>)> = vec![(variant_key("a=b"), vec![1])];
    assert_eq!(find_variant(&none, &south), None);
    // The last value a name is given is the one that counts.
    let twice = variant_key("facing=south,facing=north,lit=true");
    assert_eq!(find_variant(&variants, &twice), Some(1));
}

#[test]
fn waterlogged_does_not_select_a_model() {
    let key = model_key(&variant_key("waterlogged=true,facing=east,waterlogged=false"));
    assert_eq!(show(&key), vec![("facing".to_string(), "text:east".to_string())]);
    assert!(model_key(&variant_key("")).is_empty());
}

#[test]
fn a_variant_id_is_readable_when_every_part_has_a_value() {
    assert!(variant_id_is_readable(""));
    assert!(variant_id_is_readable("facing=north,,lit=true"));
    assert!(!variant_id_is_readable("facing=north,lit"));
    assert!(!variant_id_is_readable("normal"));
    assert!(read_variant_key("normal").is_none());
    assert_eq!(
        show(&read_variant_key("axis=y,lit=false").unwrap()),
        vec![("axis".to_string(), "text:y".to_string()), ("lit".to_string(), "bool:false".to_string())]
    );
}

#[test]
fn states_without_a_model_are_drawn_as_bedrock() {
    let blocks: Vec<String> =
        vec!["minecraft:stone".into(), "minecraft:bedrock".into(), "minecraft:dirt".into()];
    assert_eq!(block_index(&blocks, &"minecraft:dirt".to_string()), Some(2));
    assert_eq!(block_index(&blocks, &"minecraft:glass".to_string()), None);

    let states = vec![
        ("minecraft:dirt".to_string(), Some(3u16)),
        ("minecraft:glass".to_string(), Some(1)),
        ("minecraft:stone".to_string(), None),
        ("minecraft:stone".to_string(), Some(0)),
    ];
    let (slots, unmodelled) = map_block_states(&blocks, &states).unwrap();
    assert_eq!(
        slots,
        vec![
            StateSlot { block: 2, augment: 3 },
            StateSlot { block: 1, augment: 0 },
            StateSlot { block: 1, augment: 0 },
            StateSlot { block: 0, augment: 0 },
        ]
    );
    assert_eq!(unmodelled, 2);

    // No bedrock: the first block stands in. No blocks: nothing is mapped.
    let no_bedrock: Vec<String> = vec!["a:b".into(), "c:d".into()];
    let (slots, unmodelled) = map_block_states(&no_bedrock, &vec![("x:y".to_string(), Some(4))]).unwrap();
    assert_eq!(slots, vec![StateSlot { block: 0, augment: 0 }]);
    assert_eq!(unmodelled, 1);
    assert!(map_block_states(&Vec::new(), &states).is_none());
}
