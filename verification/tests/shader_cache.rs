use wgpu_mc_core::shader_cache::{canonical, key, part, CacheCounters, Translation, FORMAT_VERSION};

#[test]
fn a_key_is_the_same_for_the_same_inputs_and_different_for_others() {
    let one = key(&["void main() {}", "void main() {}", "#version 440", "sampler0=0"]);
    let same = key(&["void main() {}", "void main() {}", "#version 440", "sampler0=0"]);
    let other = key(&["void main() {}", "void main() {}", "#version 440", "sampler0=1"]);

    assert_eq!(one, same);
    assert_ne!(one, other);
}

#[test]
fn parts_cannot_be_confused_with_each_other() {
    // Without length prefixes, "ab" + "c" and "a" + "bc" would hash the same.
    assert_ne!(key(&["ab", "c"]), key(&["a", "bc"]));
}

#[test]
fn a_canonical_form_does_not_depend_on_iteration_order() {
    let first = canonical(&[("Sampler0".to_string(), 0), ("Globals".to_string(), 4)]);
    let second = canonical(&[("Globals".to_string(), 4), ("Sampler0".to_string(), 0)]);

    assert_eq!(first, second);
    assert_eq!(first, "Globals=4;Sampler0=0;");
    assert_ne!(first, canonical(&[("Globals".to_string(), 5), ("Sampler0".to_string(), 0)]));
}

#[test]
fn an_entry_from_an_older_format_is_not_read() {
    let parts = ["void main() {}", "void main() {}", "#version 440"];
    let current = key(&parts);

    assert!(current.starts_with(&format!("{FORMAT_VERSION}-")));
    assert_ne!(current, format!("{}-{}", FORMAT_VERSION + 1, &current[2..]));
}

#[test]
fn a_key_is_the_version_and_two_hashes_of_the_framed_parts() {
    assert_eq!(key(&["void main() {}"]), "1-1e800c95c6cf845f73304c08575525a4");
    // No parts at all: both hashes are still at their starting points.
    assert_eq!(key(&[]), "1-cbf29ce4842223259e3779b97f4a7c15");
    assert_eq!(key(&["void main() {}"]).len(), 34);
}

#[test]
fn a_part_hash_is_fnv1a() {
    assert_eq!(part(""), 0x811c_9dc5);
    assert_eq!(part("a"), 3826002220);
    assert_eq!(part("void main() {}"), 2226746785);
}

#[test]
fn a_canonical_form_sorts_by_key_then_by_written_value() {
    assert_eq!(canonical(&[]), "");
    // The values are compared as they are written, so "10" comes before "9".
    let written = canonical(&[
        ("b".to_string(), 9),
        ("a".to_string(), 123),
        ("b".to_string(), 10),
    ]);
    assert_eq!(written, "a=123;b=10;b=9;");
    assert_eq!(canonical(&[("x".to_string(), u64::MAX)]), "x=18446744073709551615;");
}

#[test]
fn a_translation_is_read_as_maps_where_the_last_entry_wins() {
    let translation = Translation {
        vert: "#version 440\nvoid main() {}\n".to_string(),
        frag: "#version 440\nout vec4 c;\n".to_string(),
        cube_samplers: vec![
            ("Sampler0".to_string(), true),
            ("Sampler1".to_string(), false),
            ("Sampler0".to_string(), false),
        ],
        implicit_uniforms: vec![("Globals".to_string(), 4)],
        block_sizes: vec![("Globals".to_string(), 192)],
    };

    assert_eq!(
        translation.samplers(),
        vec![("Sampler1".to_string(), false), ("Sampler0".to_string(), false)]
    );
    assert_eq!(translation.blocks(), vec![("Globals".to_string(), 192)]);
}

#[test]
fn the_cache_reports_at_multiples_of_eight_and_at_most_eight_times() {
    let mut counters = CacheCounters::new();
    assert!(!counters.report_once(), "nothing was looked up yet");
    assert_eq!(counters.reported, 0);

    for _ in 0..7 {
        counters.miss();
    }
    assert!(!counters.report_once(), "seven is not a multiple of eight");
    counters.hit();
    assert_eq!(counters.stats(), (1, 7));
    assert!(counters.report_once());

    for _ in 0..10 {
        counters.report_once();
    }
    assert!(!counters.report_once(), "the first eight asks are the only ones that report");
}
