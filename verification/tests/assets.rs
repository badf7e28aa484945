use blackjack::assets::get_card_image;

#[test]
fn card_image_names_are_zero_padded() {
    assert_eq!(get_card_image(1), "card01.bmp");
    assert_eq!(get_card_image(9), "card09.bmp");
    assert_eq!(get_card_image(10), "card10.bmp");
    assert_eq!(get_card_image(52), "card52.bmp");
}
