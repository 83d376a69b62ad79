use newton_fractal::field::sample_indices;
use newton_fractal::rendering::{render_image, serialize_image, RenderError};

fn colors(n: usize) -> Vec<(u8, u8, u8)> {
    (0..n)
        .map(|k| ((k % 256) as u8, (k / 256 % 256) as u8, 7))
        .collect()
}

#[test]
fn samples_of_a_field() {
    for g in [1u32, 2, 3, 64] {
        let s = sample_indices(g);
        assert_eq!((g * g) as usize, s.len());
        for (k, &(i, j)) in s.iter().enumerate() {
            assert_eq!(k as u32, i * g + j);
            assert!(i < g && j < g);
        }
        // neighbours along the inner axis and along the outer axis
        for k in 0..s.len() {
            if (k + 1) % g as usize != 0 {
                assert_eq!((s[k].0, s[k].1 + 1), s[k + 1]);
            }
            if k + (g as usize) < s.len() {
                assert_eq!((s[k].0 + 1, s[k].1), s[k + g as usize]);
            }
        }
    }
    assert_eq!(vec![(0, 0), (0, 1), (1, 0), (1, 1)], sample_indices(2));
    assert!(sample_indices(0).is_empty());
}

#[test]
fn too_few_colors_is_precondition_violation() {
    let g = 64u32;
    let short = colors((g * g - 1) as usize);
    assert_eq!(Some(RenderError::PreconditionViolation), render_image(&short, g).err());
    assert_eq!(
        Some(RenderError::PreconditionViolation),
        render_image(&Vec::new(), 1).err()
    );
}

#[test]
fn image_of_a_64_grid_is_64_by_64() {
    let g = 64usize;
    let raw = render_image(&colors(g * g), 64).unwrap().into_raw();
    assert_eq!(3 * g * g, raw.len());
}

#[test]
fn pixel_i_j_has_color_i_grid_plus_j() {
    let g = 3usize;
    let cs = colors(g * g + 2);
    let raw = render_image(&cs, g as u32).unwrap().into_raw();
    assert_eq!(3 * g * g, raw.len());
    for (k, &(i, j)) in sample_indices(g as u32).iter().enumerate() {
        // (i, j) is (x, y): rows of the raw buffer run along x
        let at = 3 * (j as usize * g + i as usize);
        assert_eq!(cs[k], (raw[at], raw[at + 1], raw[at + 2]));
    }
}

#[test]
fn empty_grid_gives_empty_image() {
    let raw = render_image(&Vec::new(), 0).unwrap().into_raw();
    assert!(raw.is_empty());
}

#[test]
fn serialized_image_is_a_jpeg_file() {
    let g = 8usize;
    let image = render_image(&colors(g * g), g as u32).unwrap();
    let bytes = serialize_image(&image).unwrap();
    // the raw pixels would be 3 * 64 bytes of exactly these values
    assert_ne!(image_bytes(g), bytes);
    assert!(bytes.len() > 4);
    assert_eq!(&[0xFF, 0xD8], &bytes[..2]);
    assert_eq!(&[0xFF, 0xD9], &bytes[bytes.len() - 2..]);
    let again = serialize_image(&render_image(&colors(g * g), g as u32).unwrap()).unwrap();
    assert_eq!(bytes, again);
}

fn image_bytes(g: usize) -> Vec<u8> {
    render_image(&colors(g * g), g as u32).unwrap().into_raw()
}

#[test]
fn large_but_encodable_image_serializes() {
    let g = 300usize;
    let image = render_image(&colors(g * g), g as u32).unwrap();
    assert!(serialize_image(&image).is_ok());
}
