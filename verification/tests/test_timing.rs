use pearl_pipeline::models::ability_map::{AbilityMap, Color};
use pearl_pipeline::models::error::PipelineError;
use pearl_pipeline::models::state::{Layer, Pearl, Worker};
use pearl_pipeline::processing::utils::{get_time_to_process, ticks_for_layer};
use pearl_pipeline::text::same_text;

fn table() -> AbilityMap {
    AbilityMap {
        general: Color { red: 1, green: 1, blue: 1 },
        vector: Color { red: 1, green: 5, blue: 2 },
        matrix: Color { red: 5, green: 2, blue: 1 },
    }
}

fn pearl(layers: &[(&str, u32)]) -> Pearl {
    Pearl {
        id: 1,
        layers: layers
            .iter()
            .map(|(color, thickness)| Layer { color: String::from(*color), thickness: *thickness })
            .collect(),
    }
}

fn worker(flavor: &str) -> Worker {
    Worker { id: 1, desk: vec![], flavor: String::from(flavor) }
}

#[test]
fn layer_time_rounds_up() {
    assert_eq!(ticks_for_layer(12, 5), 3);
    assert_eq!(ticks_for_layer(11, 5), 3);
    assert_eq!(ticks_for_layer(10, 5), 2);
    assert_eq!(ticks_for_layer(1, 5), 1);
    assert_eq!(ticks_for_layer(0, 5), 0);
    assert_eq!(ticks_for_layer(7, 1), 7);
}

#[test]
fn layer_time_is_exact_at_the_limits() {
    assert_eq!(ticks_for_layer(4294967295, 1), 4294967295);
    assert_eq!(ticks_for_layer(4294967295, 4294967295), 1);
    assert_eq!(ticks_for_layer(4294967294, 4294967295), 1);
    assert_eq!(ticks_for_layer(4294967295, 2), 2147483648);
    assert_eq!(ticks_for_layer(16777217, 16777216), 2);
}

#[test]
fn layer_time_grows_with_thickness_and_shrinks_with_rate() {
    for rate in 1..12 {
        for thickness in 0..60 {
            assert!(ticks_for_layer(thickness, rate) <= ticks_for_layer(thickness + 1, rate));
            assert!(ticks_for_layer(thickness, rate + 1) <= ticks_for_layer(thickness, rate));
        }
    }
}

#[test]
fn pearl_time_is_the_sum_over_its_layers() {
    let p = pearl(&[("Green", 12), ("Red", 7), ("Blue", 3), ("Green", 5)]);

    assert_eq!(get_time_to_process(&p, &worker("Vector"), &table()), Ok(3 + 7 + 2 + 1));
    assert_eq!(get_time_to_process(&p, &worker("Matrix"), &table()), Ok(6 + 2 + 3 + 3));
    assert_eq!(get_time_to_process(&p, &worker("General"), &table()), Ok(12 + 7 + 3 + 5));
}

#[test]
fn pearl_time_does_not_overflow() {
    let p = pearl(&[("Red", 4294967295), ("Red", 4294967295), ("Red", 4294967295)]);

    assert_eq!(get_time_to_process(&p, &worker("General"), &table()), Ok(12884901885));
}

#[test]
fn pearl_time_grows_with_one_layer_and_shrinks_with_one_rate() {
    let thin = pearl(&[("Green", 12), ("Red", 7)]);
    let thick = pearl(&[("Green", 16), ("Red", 7)]);
    let mut faster = table();
    faster.vector.green = 6;

    let base = get_time_to_process(&thin, &worker("Vector"), &table()).unwrap();

    assert_eq!(base, 10);
    assert_eq!(get_time_to_process(&thick, &worker("Vector"), &table()), Ok(11));
    assert_eq!(get_time_to_process(&thin, &worker("Vector"), &faster), Ok(9));
}

#[test]
fn finished_pearl_takes_no_time_whatever_the_flavor() {
    let p = pearl(&[]);

    assert_eq!(get_time_to_process(&p, &worker("Vector"), &table()), Ok(0));
    assert_eq!(get_time_to_process(&p, &worker("Nobody"), &table()), Ok(0));
}

#[test]
fn unknown_flavor_or_color_is_a_configuration_error() {
    let p = pearl(&[("Green", 12)]);
    let odd = pearl(&[("Green", 12), ("green", 1)]);

    assert_eq!(
        get_time_to_process(&p, &worker("vector"), &table()),
        Err(PipelineError::Configuration)
    );
    assert_eq!(
        get_time_to_process(&odd, &worker("Vector"), &table()),
        Err(PipelineError::Configuration)
    );
}

#[test]
fn rate_of_zero_is_a_configuration_error() {
    let mut broken = table();
    broken.matrix.blue = 0;

    assert!(!broken.is_positive());
    assert!(table().is_positive());
    assert_eq!(
        get_time_to_process(&pearl(&[("Blue", 0)]), &worker("Matrix"), &broken),
        Err(PipelineError::Configuration)
    );
    assert_eq!(get_time_to_process(&pearl(&[("Red", 9)]), &worker("Matrix"), &broken), Ok(2));
}

#[test]
fn table_is_looked_up_by_name() {
    let map = table();

    assert_eq!(map.get("General"), Some(&map.general));
    assert_eq!(map.get("Vector"), Some(&map.vector));
    assert_eq!(map.get("Matrix"), Some(&map.matrix));
    assert_eq!(map.get("Tensor"), None);
    assert_eq!(map.get(""), None);
    assert_eq!(map.vector.get("Red"), Some(&1));
    assert_eq!(map.vector.get("Green"), Some(&5));
    assert_eq!(map.vector.get("Blue"), Some(&2));
    assert_eq!(map.vector.get("Gree"), None);
    assert_eq!(map.rate_of("Matrix", "Red"), Some(5));
    assert_eq!(map.rate_of("Matrix", "Pink"), None);
    assert_eq!(map.rate_of("Scalar", "Red"), None);
    assert_eq!(*map.index("Matrix").index("Blue"), 1);
}

#[test]
fn texts_compare_by_their_characters() {
    assert!(same_text("Green", "Green"));
    assert!(same_text("", ""));
    assert!(!same_text("Green", "Greem"));
    assert!(!same_text("Green", "Gree"));
    assert!(!same_text("Gree", "Green"));
    assert!(same_text("gr\u{fc}n", "gr\u{fc}n"));
    assert!(!same_text("gr\u{fc}n", "grun"));
}
