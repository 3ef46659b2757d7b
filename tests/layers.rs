use exr_denoise::channels::{add_alpha, rejoin_side, separate_side, strip_alpha};
use exr_denoise::decode::{from_decoded_layers, merge_channels, DecodedLayer};
use exr_denoise::encode::{rgb_at, rgba_at};
use exr_denoise::image::{buffer_type_for, BufferType, FloatImage, ImageError};

fn bits(values: &[f32]) -> Vec<u32> {
    values.iter().map(|v| v.to_bits()).collect()
}

fn constant_channel(value: f32, n: usize) -> Vec<u32> {
    vec![value.to_bits(); n]
}

#[test]
fn decode_channel_order_is_reversed() {
    // declared A, B, G, R, each a distinct constant, over 2 pixels
    let channels = vec![
        constant_channel(0.25, 2),
        constant_channel(0.5, 2),
        constant_channel(0.75, 2),
        constant_channel(1.0, 2),
    ];
    let merged = merge_channels(&channels, 2);
    assert_eq!(merged, bits(&[1.0, 0.75, 0.5, 0.25, 1.0, 0.75, 0.5, 0.25]));
}

#[test]
fn merge_interleaves_pixels_outermost() {
    let channels = vec![vec![1, 2, 3], vec![10, 20, 30]];
    assert_eq!(merge_channels(&channels, 3), vec![10, 1, 20, 2, 30, 3]);
}

#[test]
fn merge_of_no_channels_is_empty() {
    let channels: Vec<Vec<u32>> = Vec::new();
    assert!(merge_channels(&channels, 5).is_empty());
}

#[test]
fn decode_then_encode_round_trip_three_channels() {
    // a 2 x 2 image declared as B, G, R
    let b = bits(&[0.1, 0.2, 0.3, 0.4]);
    let g = bits(&[1.1, 1.2, 1.3, 1.4]);
    let r = bits(&[2.1, 2.2, 2.3, 2.4]);
    let layer = DecodedLayer { name: None, channels: vec![b.clone(), g.clone(), r.clone()] };
    let img = from_decoded_layers(2, 2, vec![layer]);
    let (kind, data) = img.get(&"main_layer".to_string()).unwrap();
    assert_eq!(*kind, BufferType::RGB);
    for y in 0..2 {
        for x in 0..2 {
            let i = x + y * 2;
            assert_eq!(rgb_at(data, 2, x, y), Some((r[i], g[i], b[i])));
        }
    }
}

#[test]
fn decoded_layers_are_classified_by_channel_count() {
    let n = 6;
    let layers = vec![
        DecodedLayer {
            name: Some("rgb".to_string()),
            channels: vec![constant_channel(1.0, n); 3],
        },
        DecodedLayer {
            name: Some("rgba".to_string()),
            channels: vec![constant_channel(2.0, n); 4],
        },
        DecodedLayer {
            name: Some("depth".to_string()),
            channels: vec![constant_channel(3.0, n); 1],
        },
    ];
    let img = from_decoded_layers(3, 2, layers);
    assert_eq!(img.pixel_count(), 6);
    let expected = [("rgb", BufferType::RGB, 3), ("rgba", BufferType::RGBA, 4), ("depth", BufferType::Other, 1)];
    for (name, kind, count) in expected {
        let (k, data) = img.get(&name.to_string()).unwrap();
        assert_eq!(*k, kind);
        assert_eq!(data.len() % img.pixel_count(), 0);
        assert_eq!(data.len() / img.pixel_count(), count);
    }
}

#[test]
fn unnamed_layer_is_main_layer() {
    let layer = DecodedLayer { name: None, channels: vec![vec![7]; 3] };
    let img = from_decoded_layers(1, 1, vec![layer]);
    assert_eq!(img.get(&"main_layer".to_string()).unwrap().1, vec![7, 7, 7]);
}

#[test]
fn later_layer_of_same_name_replaces_earlier() {
    let first = DecodedLayer { name: Some("a".to_string()), channels: vec![vec![1]; 3] };
    let second = DecodedLayer { name: Some("a".to_string()), channels: vec![vec![2]; 4] };
    let img = from_decoded_layers(1, 1, vec![first, second]);
    let (kind, data) = img.get(&"a".to_string()).unwrap();
    assert_eq!(*kind, BufferType::RGBA);
    assert_eq!(data, &vec![2, 2, 2, 2]);
}

#[test]
fn missing_layer_is_layer_not_found() {
    let layer = DecodedLayer { name: Some("beauty".to_string()), channels: vec![vec![0; 4]; 3] };
    let img = from_decoded_layers(2, 2, vec![layer]);
    assert!(img.get(&"beauty".to_string()).is_ok());
    assert_eq!(img.get(&"albedo".to_string()).err(), Some(ImageError::LayerNotFound));
}

#[test]
fn put_inserts_and_replaces() {
    let mut img = FloatImage::new(2, 1);
    assert_eq!(img.get(&"x".to_string()).err(), Some(ImageError::LayerNotFound));
    img.put("x".to_string(), BufferType::RGB, vec![1, 2, 3, 4, 5, 6]);
    assert_eq!(img.get(&"x".to_string()).unwrap().1, vec![1, 2, 3, 4, 5, 6]);
    img.put("x".to_string(), BufferType::Other, vec![9, 9]);
    let (kind, data) = img.get(&"x".to_string()).unwrap();
    assert_eq!(*kind, BufferType::Other);
    assert_eq!(data, &vec![9, 9]);
}

#[test]
fn fits_checks_length_and_classification() {
    let img = FloatImage::new(2, 2);
    assert!(img.fits(BufferType::RGB, &vec![0; 12]));
    assert!(img.fits(BufferType::RGBA, &vec![0; 16]));
    assert!(img.fits(BufferType::Other, &vec![0; 8]));
    assert!(!img.fits(BufferType::RGBA, &vec![0; 12]));
    assert!(!img.fits(BufferType::Other, &vec![0; 13]));
}

#[test]
fn buffer_type_by_channel_count() {
    assert_eq!(buffer_type_for(12, 4), BufferType::RGB);
    assert_eq!(buffer_type_for(16, 4), BufferType::RGBA);
    assert_eq!(buffer_type_for(8, 4), BufferType::Other);
    assert_eq!(buffer_type_for(20, 4), BufferType::Other);
}

#[test]
fn pixel_access_uses_row_major_stride() {
    let data: Vec<u32> = (0..24).collect();
    assert_eq!(rgb_at(&data, 4, 1, 1), Some((15, 16, 17)));
    assert_eq!(rgb_at(&data, 4, 3, 1), Some((21, 22, 23)));
    assert_eq!(rgb_at(&data, 4, 0, 2), None);
    assert_eq!(rgba_at(&data, 3, 2, 1), Some((20, 21, 22, 23)));
    assert_eq!(rgba_at(&data, 3, 0, 2), None);
    assert_eq!(rgb_at(&data, usize::MAX, 0, 2), None);
}

#[test]
fn strip_alpha_takes_third_channel_as_side() {
    let (rgb, side) = strip_alpha(vec![1, 2, 3, 4, 5, 6, 7, 8]);
    assert_eq!(rgb, vec![1, 2, 3, 5, 6, 7]);
    assert_eq!(side, vec![3, 7]);
}

#[test]
fn add_alpha_appends_side_as_fourth_channel() {
    assert_eq!(add_alpha(vec![1, 2, 3, 5, 6, 7], vec![40, 80]), vec![1, 2, 3, 40, 5, 6, 7, 80]);
    assert!(add_alpha(Vec::new(), Vec::new()).is_empty());
}

#[test]
fn split_then_merge_is_not_an_inverse_in_general() {
    let b = vec![1, 2, 3, 4, 5, 6, 7, 8];
    let (rgb, side) = strip_alpha(b.clone());
    let merged = add_alpha(rgb, side);
    assert_eq!(merged, vec![1, 2, 3, 3, 5, 6, 7, 7]);
    assert_ne!(merged, b);
}

#[test]
fn split_then_merge_restores_when_channels_two_and_three_agree() {
    let b = vec![1, 2, 3, 3, 5, 6, 7, 7];
    let (rgb, side) = strip_alpha(b.clone());
    assert_eq!(add_alpha(rgb, side), b);
}

#[test]
fn separate_and_rejoin_by_classification() {
    let (rgb, side) = separate_side(BufferType::RGBA, vec![1, 2, 3, 4]);
    assert_eq!((rgb.clone(), side.clone()), (vec![1, 2, 3], vec![3]));
    assert_eq!(rejoin_side(BufferType::RGBA, rgb, side), vec![1, 2, 3, 3]);
    let (rgb, side) = separate_side(BufferType::RGB, vec![1, 2, 3]);
    assert_eq!((rgb.clone(), side.clone()), (vec![1, 2, 3], Vec::new()));
    assert_eq!(rejoin_side(BufferType::RGB, rgb, side), vec![1, 2, 3]);
    let (other, side) = separate_side(BufferType::Other, vec![5, 6]);
    assert_eq!((other, side), (vec![5, 6], Vec::new()));
}
