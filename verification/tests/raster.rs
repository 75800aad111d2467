use image_to_tetris::approx_image::raster::PixelImage;

#[test]
fn blank_image_is_transparent_black() {
    let img = PixelImage::new_blank(3, 2);
    assert_eq!((img.width, img.height), (3, 2));
    assert_eq!(img.data, vec![0; 24]);
}

#[test]
fn crop_takes_the_given_rectangle() {
    let data: Vec<u8> = (0..48).collect();
    let img = PixelImage { width: 4, height: 3, data };
    let part = img.crop(1, 1, 2, 2);
    assert_eq!((part.width, part.height), (2, 2));
    assert_eq!(part.get_pixel(0, 0), img.get_pixel(1, 1));
    assert_eq!(part.get_pixel(1, 1), img.get_pixel(2, 2));
    assert_eq!(part.get_pixel(1, 0), [24, 25, 26, 27]);
}

#[test]
fn overlay_draws_the_top_image() {
    let mut img = PixelImage::new_blank(2, 2);
    let top = PixelImage { width: 1, height: 1, data: vec![255, 0, 0, 255] };
    img.overlay(&top, 1, 1);
    assert_eq!(img.get_pixel(1, 1), [255, 0, 0, 255]);
    assert_eq!(img.get_pixel(0, 0), [0, 0, 0, 0]);
    // a part outside the image is dropped
    img.overlay(&top, 5, -3);
    assert_eq!(img.data.iter().filter(|b| **b != 0).count(), 2);
}

#[test]
fn resizing_changes_the_size() {
    let img = PixelImage { width: 1, height: 1, data: vec![10, 20, 30, 255] };
    let big = img.resized(3, 2);
    assert_eq!((big.width, big.height), (3, 2));
    assert_eq!(big.data.len(), 24);
    // a uniform image stays uniform
    assert_eq!(big.get_pixel(2, 1), [10, 20, 30, 255]);
    let same = img.resized(1, 1);
    assert_eq!(same.data, img.data);
}

#[test]
fn resizing_to_or_from_an_empty_image() {
    let img = PixelImage { width: 2, height: 1, data: vec![10, 20, 30, 255, 10, 20, 30, 255] };
    let flat = img.resized(3, 0);
    assert_eq!((flat.width, flat.height), (3, 0));
    assert!(flat.data.is_empty());
    let empty = PixelImage { width: 0, height: 0, data: vec![] };
    let grown = empty.resized(2, 2);
    assert_eq!((grown.width, grown.height), (2, 2));
    assert_eq!(grown.data, vec![0; 16]);
}
