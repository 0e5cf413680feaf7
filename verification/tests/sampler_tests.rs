use portfolio::sampler::{image_html, images_html, ImageSet, SamplerError};

fn listing(names: &[&str]) -> Option<Vec<Option<String>>> {
    Some(names.iter().map(|n| Some(n.to_string())).collect())
}

fn images(names: &[&str]) -> ImageSet {
    ImageSet::from_listing(listing(names)).unwrap()
}

#[test]
fn the_listing_is_kept_in_order() {
    let set = images(&["b.jpg", "a.jpg", "c.png"]);
    assert_eq!(set.names(), &vec!["b.jpg".to_string(), "a.jpg".to_string(), "c.png".to_string()]);
    assert_eq!(set.name_at(0), Some("b.jpg"));
    assert_eq!(set.name_at(2), Some("c.png"));
    assert_eq!(set.name_at(3), None);
    assert_eq!(set.name_at(usize::MAX), None);
}

#[test]
fn entries_without_a_name_are_left_out() {
    let set = ImageSet::from_listing(Some(vec![
        None,
        Some("a.jpg".to_string()),
        None,
        Some("b.jpg".to_string()),
    ]))
    .unwrap();
    assert_eq!(set.names(), &vec!["a.jpg".to_string(), "b.jpg".to_string()]);
}

#[test]
fn no_sampler_for_an_empty_directory() {
    assert_eq!(ImageSet::from_listing(Some(Vec::new())).err(), Some(SamplerError::NoImages));
}

#[test]
fn no_sampler_where_no_name_can_be_read() {
    assert_eq!(ImageSet::from_listing(Some(vec![None, None])).err(), Some(SamplerError::NoImages));
}

#[test]
fn no_sampler_without_a_listing() {
    assert_eq!(ImageSet::from_listing(None).err(), Some(SamplerError::DirectoryUnreadable));
}

#[test]
fn sampling_gives_as_many_names_as_asked() {
    let set = images(&["a.jpg", "b.jpg", "c.jpg"]);
    for count in [0u32, 1, 2, 3, 10, 257] {
        assert_eq!(set.sample(count).len(), count as usize);
    }
}

#[test]
fn every_name_drawn_is_in_the_listing() {
    let set = images(&["a.jpg", "b.jpg", "c.jpg"]);
    for name in set.sample(500) {
        assert!(set.names().contains(&name));
    }
    for _ in 0..200 {
        assert!(set.names().contains(&set.random_name()));
    }
}

#[test]
fn sampling_nothing_gives_nothing() {
    assert!(images(&["a.jpg"]).sample(0).is_empty());
}

#[test]
fn names_may_be_drawn_more_than_once() {
    let drawn = images(&["a.jpg", "b.jpg"]).sample(50);
    assert_eq!(drawn.len(), 50);
    let a = drawn.iter().filter(|n| n.as_str() == "a.jpg").count();
    let b = drawn.iter().filter(|n| n.as_str() == "b.jpg").count();
    assert_eq!(a + b, 50);
}

#[test]
fn drawing_from_one_name_gives_that_name() {
    let set = images(&["only.jpg"]);
    assert_eq!(set.random_name(), "only.jpg");
    assert_eq!(set.sample(3), vec!["only.jpg".to_string(); 3]);
}

#[test]
fn every_name_is_drawn_sooner_or_later() {
    let set = images(&["a.jpg", "b.jpg", "c.jpg", "d.jpg"]);
    let drawn = set.sample(2000);
    for name in set.names() {
        assert!(drawn.contains(name));
    }
}

#[test]
fn one_picture_as_markup() {
    assert_eq!(
        image_html(7, "rex.jpg"),
        "
        <div id=\"dog-div-7\" class=\"inner-dog\">
          <img class=\"inner-dog\" alt=\"Dog Image\" src=\"dogpictures/rex.jpg\"/>
        </div>


        "
    );
}

#[test]
fn pictures_are_numbered_from_one() {
    let names = vec!["a.jpg".to_string(), "b.jpg".to_string()];
    assert_eq!(
        images_html(&names),
        "<div class=\"outer-dog-div\">
        <div id=\"dog-div-1\" class=\"inner-dog\">
          <img class=\"inner-dog\" alt=\"Dog Image\" src=\"dogpictures/a.jpg\"/>
        </div>


        
        <div id=\"dog-div-2\" class=\"inner-dog\">
          <img class=\"inner-dog\" alt=\"Dog Image\" src=\"dogpictures/b.jpg\"/>
        </div>


        </div>"
    );
}

#[test]
fn the_tenth_picture_has_a_two_digit_number() {
    let names = vec!["a.jpg".to_string(); 10];
    let html = images_html(&names);
    assert!(html.contains("<div id=\"dog-div-10\" class=\"inner-dog\">"));
    assert!(!html.contains("dog-div-11\""));
    assert!(!html.contains("dog-div-0\""));
}

#[test]
fn no_pictures_give_an_empty_box() {
    assert_eq!(images_html(&Vec::new()), "<div class=\"outer-dog-div\"></div>");
}

#[test]
fn a_request_without_count_gets_an_empty_box() {
    assert_eq!(images(&["a.jpg"]).random_images_html(None), "<div class=\"outer-dog-div\"></div>");
}

#[test]
fn a_request_with_an_unreadable_count_gets_an_empty_box() {
    let set = images(&["a.jpg", "b.jpg"]);
    for count in ["", "three", "-2", "0", "1.5", "99999999999"] {
        assert_eq!(set.random_images_html(Some(count)), "<div class=\"outer-dog-div\"></div>");
    }
}

#[test]
fn a_request_gets_as_many_pictures_as_it_asks_for() {
    let set = images(&["a.jpg", "b.jpg", "c.jpg"]);
    for count in 1..=12 {
        let html = set.random_images_html(Some(count.to_string().as_str()));
        assert_eq!(html.matches("<img class=\"inner-dog\"").count(), count);
        for number in 1..=count {
            assert_eq!(html.matches(format!("id=\"dog-div-{}\"", number).as_str()).count(), 1);
        }
    }
}

#[test]
fn a_request_over_one_name_is_answered_exactly() {
    let set = images(&["only.jpg"]);
    assert_eq!(
        set.random_images_html(Some("2")),
        images_html(&vec!["only.jpg".to_string(), "only.jpg".to_string()])
    );
}

#[test]
fn a_copy_of_a_sampler_holds_the_same_names() {
    let set = images(&["b.jpg", "a.jpg"]);
    assert_eq!(set.clone().names(), set.names());
}
