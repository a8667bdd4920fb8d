use archypix_app_back::api::picture::UploadPictureData;
use archypix_app_back::api::query_pictures::{PictureFilter, PictureSort, PicturesQuery};
use archypix_app_back::api::tags::{check_default_tags, first_default_tag};
use archypix_app_back::database::picture::{Picture, PictureOrientation};
use archypix_app_back::database::picture_condition::PictureCondition;
use archypix_app_back::database::picture_tag::PictureTag;
use archypix_app_back::database::rating::Rating;
use archypix_app_back::database::tag::{Tag, TagGroup, TagGroupWithTags};
use archypix_app_back::utils::errors_catcher::{ErrorResponder, ErrorTypeKind};
use archypix_app_back::utils::sorted_ids::{insert_sorted, sorted_distinct};
use archypix_app_back::utils::exif::ExifValues;
use archypix_app_back::utils::thumbnail::{blurhash_components, generate_blurhash, thumbnail_width, PictureThumbnail};

fn kind_and_message(e: &ErrorResponder) -> (u16, ErrorTypeKind, String) {
    let r = match e {
        ErrorResponder::BadRequest(r)
        | ErrorResponder::Unauthorized(r)
        | ErrorResponder::NotFound(r)
        | ErrorResponder::UnprocessableEntity(r)
        | ErrorResponder::InternalError(r) => r.clone(),
    };
    (e.status(), r.error_type, r.message)
}

fn picture(id: i64, name: &str, size_ko: i32) -> Picture {
    Picture {
        id,
        name: name.to_string(),
        comment: "".to_string(),
        owner_id: 1,
        author_id: 1,
        deleted_date: None,
        copied: false,
        creation_date: 1000,
        edition_date: 2000,
        latitude: Some(48_856_600),
        longitude: None,
        altitude: None,
        orientation: PictureOrientation::Normal,
        width: 100,
        height: 50,
        camera_brand: Some("Fuji".to_string()),
        camera_model: None,
        focal_length: None,
        exposure_time_num: None,
        exposure_time_den: None,
        iso_speed: Some(200),
        f_number: None,
        size_ko,
    }
}

fn tag(id: i32, group: i32, is_default: bool) -> Tag {
    Tag { id, tag_group_id: group, name: format!("t{}", id), color: vec![1, 2, 3], is_default }
}

#[test]
fn thumbnails_are_named_by_number_or_by_name() {
    assert_eq!(PictureThumbnail::from_param("0").unwrap(), PictureThumbnail::Original);
    assert_eq!(PictureThumbnail::from_param("2").unwrap(), PictureThumbnail::Medium);
    assert_eq!(PictureThumbnail::from_param("small").unwrap(), PictureThumbnail::Small);
    assert_eq!(PictureThumbnail::from_param("large").unwrap(), PictureThumbnail::Large);
    let e = PictureThumbnail::from_param("4").unwrap_err();
    assert_eq!(kind_and_message(&e), (404, ErrorTypeKind::NotFound, "Not found: Invalid thumbnail index".to_string()));
    let e = PictureThumbnail::from_param("Huge").unwrap_err();
    assert_eq!(kind_and_message(&e), (404, ErrorTypeKind::NotFound, "Not found: Invalid thumbnail type".to_string()));
    assert_eq!(PictureThumbnail::Original.get_thumbnail_height(), None);
    assert_eq!(PictureThumbnail::Small.get_thumbnail_height(), Some(100));
    assert_eq!(PictureThumbnail::Medium.get_thumbnail_height(), Some(500));
    assert_eq!(PictureThumbnail::Large.get_thumbnail_height(), Some(1000));
}

#[test]
fn thumbnails_keep_proportions() {
    assert_eq!(thumbnail_width(100, 4000, 3000), 133);
    assert_eq!(thumbnail_width(500, 1000, 1000), 500);
    assert_eq!(blurhash_components(40, 30), (4, 3));
    assert_eq!(blurhash_components(30, 30), (3, 3));
    assert_eq!(blurhash_components(30, 40), (3, 4));
}

#[test]
fn blurhash_has_the_length_of_its_components() {
    let pixels: Vec<u8> = (0..(8 * 6 * 4)).map(|i| (i * 7 % 256) as u8).collect();
    let hash = generate_blurhash(8, 6, &pixels).unwrap();
    assert_eq!(hash.len(), 28);
    let square: Vec<u8> = vec![128; 5 * 5 * 4];
    assert_eq!(generate_blurhash(5, 5, &square).unwrap().len(), 22);
}

#[test]
fn blurhash_starts_with_its_size_flag() {
    let wide: Vec<u8> = vec![90; 8 * 6 * 4];
    assert!(generate_blurhash(8, 6, &wide).unwrap().starts_with('L'));
    let square: Vec<u8> = vec![90; 5 * 5 * 4];
    assert!(generate_blurhash(5, 5, &square).unwrap().starts_with('K'));
    let tall: Vec<u8> = vec![90; 6 * 8 * 4];
    assert!(generate_blurhash(6, 8, &tall).unwrap().starts_with('T'));
}

#[test]
fn upload_sizes_are_rounded_up_and_limited() {
    let upload = |size: u64| UploadPictureData { file_name: Some("été.jpg".to_string()), file_size: size };
    assert_eq!(upload(0).size_ko(0, 100).unwrap(), 1);
    assert_eq!(upload(1).size_ko(0, 100).unwrap(), 1);
    assert_eq!(upload(1024).size_ko(0, 100).unwrap(), 1);
    assert_eq!(upload(1025).size_ko(0, 100).unwrap(), 2);
    let e = upload(50 * 1024).size_ko(60, 100).unwrap_err();
    assert_eq!(kind_and_message(&e), (422, ErrorTypeKind::InvalidInput, "File size is too big: 50 Ko".to_string()));
    let e = upload(10_000_001 * 1024).size_ko(0, i64::MAX / 2).unwrap_err();
    assert_eq!(kind_and_message(&e).2, "File size is too big: 10000001 Ko");
    assert_eq!(upload(0).name(), "été.jpg");
    assert_eq!(upload(0).temp_file_name(42), "42-t.jpg");
    let unnamed = UploadPictureData { file_name: None, file_size: 10 };
    assert_eq!(unnamed.name(), "unknown.jpg");
}

#[test]
fn uploaded_pictures_belong_to_the_uploader() {
    let p = Picture::for_upload(picture(0, "", 0), 9, "mine.png".to_string(), 12);
    assert_eq!((p.owner_id, p.author_id, p.name.as_str(), p.size_ko), (9, 9, "mine.png", 12));
    assert_eq!(p.latitude, Some(48_856_600));
}

#[test]
fn exif_orientations() {
    assert_eq!(PictureOrientation::from_exif(1), PictureOrientation::Normal);
    assert_eq!(PictureOrientation::from_exif(6), PictureOrientation::Rotate90);
    assert_eq!(PictureOrientation::from_exif(8), PictureOrientation::Rotate270);
    assert_eq!(PictureOrientation::from_exif(0), PictureOrientation::Unspecified);
    assert_eq!(PictureOrientation::from_exif(9), PictureOrientation::Unspecified);
}

#[test]
fn mixed_picture_keeps_what_all_pictures_share() {
    let mut b = picture(2, "b", 20);
    b.camera_brand = Some("Fuji".to_string());
    b.creation_date = 5;
    let m = Picture::calculate_mixed_picture(&[picture(1, "a", 10), b]);
    assert_eq!(m.total_size_ko, 30);
    assert_eq!(m.name, None);
    assert_eq!(m.creation_date, None);
    assert_eq!(m.camera_brand, Some(Some("Fuji".to_string())));
    assert_eq!(m.width, Some(100));
    assert_eq!(m.longitude, Some(None));
    let single = Picture::calculate_mixed_picture(&[picture(1, "a", 10)]);
    assert_eq!(single.name, Some("a".to_string()));
    let none = Picture::calculate_mixed_picture(&[]);
    assert_eq!((none.name, none.total_size_ko), (None, 0));
}

#[test]
fn mixed_picture_does_not_depend_on_the_order_of_the_pictures() {
    let mut b = picture(2, "b", 20);
    b.camera_brand = Some("Fuji".to_string());
    let mut c = picture(3, "a", 5);
    c.width = 7;
    let forward = Picture::calculate_mixed_picture(&[picture(1, "a", 10), b.clone(), c.clone()]);
    let backward = Picture::calculate_mixed_picture(&[c, b, picture(1, "a", 10)]);
    assert_eq!(forward, backward);
    assert_eq!(forward.total_size_ko, 35);
    assert_eq!(forward.width, None);
}

#[test]
fn mixed_picture_details_combine_tags_and_ratings() {
    let pictures = vec![picture(1, "a", 10), picture(2, "b", 10)];
    let rows = vec![(1, 5), (2, 5), (1, 7)];
    let ratings = vec![
        Rating { user_id: 3, picture_id: 1, rating: 4 },
        Rating { user_id: 3, picture_id: 2, rating: 1 },
        Rating { user_id: 8, picture_id: 1, rating: 5 },
    ];
    let d = Picture::get_mixed_picture_details(3, &vec![1, 2], &pictures, &rows, &ratings).unwrap();
    assert_eq!(d.common_tags_ids, vec![5]);
    assert_eq!(d.mixed_tags_ids, vec![7]);
    assert_eq!(d.average_user_rating, Some(2));
    assert_eq!(d.average_global_rating, Some(3));
    assert_eq!(d.rating_users, vec![8]);
    assert_eq!(d.pictures.total_size_ko, 20);
    let e = Picture::get_mixed_picture_details(3, &vec![], &pictures, &rows, &ratings).unwrap_err();
    assert_eq!(kind_and_message(&e), (422, ErrorTypeKind::UnprocessableEntity, "Picture IDs list cannot be empty".to_string()));
    let e = Picture::get_mixed_picture_details(3, &vec![4], &vec![], &rows, &ratings).unwrap_err();
    assert_eq!(kind_and_message(&e).1, ErrorTypeKind::PictureNotFound);
}

#[test]
fn ratings_average_rounds_toward_zero() {
    let r = |v: i16| Rating { user_id: 1, picture_id: 1, rating: v };
    assert_eq!(Rating::average_ratings_value(&[]), None);
    assert_eq!(Rating::average_ratings_value(&[r(1), r(2)]), Some(1));
    assert_eq!(Rating::average_ratings_value(&[r(-1), r(-2)]), Some(-1));
    assert_eq!(Rating::average_ratings_value(&[r(5)]), Some(5));
}

#[test]
fn common_and_mixed_tags() {
    let (common, mixed) = PictureTag::get_mixed_pictures_tags(&vec![(1, 9), (2, 9), (3, 9), (1, 4), (3, 2)], 3);
    assert_eq!(common, vec![9]);
    assert_eq!(mixed, vec![2, 4]);
    let (common, mixed) = PictureTag::get_mixed_pictures_tags(&vec![], 2);
    assert!(common.is_empty() && mixed.is_empty());
}

#[test]
fn default_tags_go_only_to_pictures_without_a_tag_of_the_group() {
    let groups = vec![
        TagGroupWithTags {
            tag_group: TagGroup { id: Some(1), user_id: 3, name: "Place".to_string(), multiple: false, required: true },
            tags: vec![tag(10, 1, true), tag(11, 1, false)],
        },
        TagGroupWithTags {
            tag_group: TagGroup { id: Some(2), user_id: 3, name: "People".to_string(), multiple: true, required: false },
            tags: vec![tag(20, 2, false)],
        },
    ];
    let plan = PictureTag::default_tags_to_add(&groups, &vec![100, 101, 102], &vec![(101, 1), (100, 2)]);
    assert_eq!(plan.len(), 2);
    assert_eq!(plan[0].tag_ids, vec![10]);
    assert_eq!(plan[0].picture_ids, vec![100, 102]);
    assert!(plan[1].tag_ids.is_empty());
    assert_eq!(plan[1].picture_ids, vec![101, 102]);
}

#[test]
fn tag_groups_need_consistent_default_tags() {
    assert_eq!(check_default_tags(true, false, &vec![tag(1, 1, true), tag(2, 1, false)]).unwrap(), vec![1]);
    let e = check_default_tags(true, true, &vec![tag(1, 1, false)]).unwrap_err();
    assert_eq!(kind_and_message(&e).2, "Required tag group must have at least one default tag");
    let e = check_default_tags(false, false, &vec![tag(1, 1, true), tag(2, 1, true)]).unwrap_err();
    assert_eq!(kind_and_message(&e).2, "Multiple tag group can't have more than one default tag");
    assert_eq!(check_default_tags(false, true, &vec![tag(1, 1, true), tag(2, 1, true)]).unwrap(), vec![1, 2]);
    assert_eq!(first_default_tag(&vec![tag(1, 1, false), tag(2, 1, true)]).unwrap(), 2);
    assert_eq!(kind_and_message(&first_default_tag(&vec![]).unwrap_err()).0, 500);
}

#[test]
fn tags_are_found_by_id() {
    let tags = vec![tag(1, 1, false), tag(2, 2, true), tag(3, 1, false)];
    assert_eq!(Tag::list_tags(tags.clone(), 1).iter().map(|t| t.id).collect::<Vec<i32>>(), vec![1, 3]);
    assert_eq!(Tag::from_id(tags.clone(), 2).unwrap().id, 2);
    assert_eq!(kind_and_message(&Tag::from_id(tags.clone(), 9).unwrap_err()).1, ErrorTypeKind::TagNotFound);
    assert!(Tag::from_id_opt(tags.clone(), 9).is_none());
    assert_eq!(Tag::from_ids(tags.clone(), &vec![3, 1]).iter().map(|t| t.id).collect::<Vec<i32>>(), vec![1, 3]);
    assert_eq!(Tag::default_tag_ids(&tags), vec![2]);
}

#[test]
fn picture_queries_page_through_visible_pictures() {
    let query = PicturesQuery { filters: vec![PictureFilter::Owned { invert: false }], sorts: vec![PictureSort::CreationDate { ascend: true }], page: 3 };
    let plan = Picture::query(5, query, 100);
    assert_eq!((plan.limit, plan.offset), (100, 200));
    assert_eq!(plan.sort, Some(PictureSort::CreationDate { ascend: true }));
    assert!(plan.distinct);
    let two_sorts = PicturesQuery {
        filters: vec![],
        sorts: vec![PictureSort::CreationDate { ascend: true }, PictureSort::EditionDate { ascend: false }],
        page: 1,
    };
    assert_eq!(Picture::query(5, two_sorts, 10).sort, Some(PictureSort::EditionDate { ascend: false }));
    let first = PicturesQuery::from_page(1);
    assert_eq!(first.page, 1);
    let plan = Picture::query(5, first, 10);
    assert_eq!(plan.offset, 0);
    assert_eq!(
        plan.condition,
        PictureCondition::Or(Box::new(PictureCondition::OwnedBy(5)), Box::new(PictureCondition::SharedWith(5)))
    );
    let listing = Picture::list_all(5, false, Some(true));
    assert!(!listing.distinct);
    assert!(listing.owned.is_none() && listing.shared.is_some());
    let listing = Picture::list_all(5, true, None);
    assert!(listing.owned.is_some() && listing.shared.is_some());
}

#[test]
fn sorted_ids_stay_sorted_without_duplicates() {
    let mut v = vec![1, 4, 9];
    insert_sorted(&mut v, 5);
    insert_sorted(&mut v, 4);
    insert_sorted(&mut v, 0);
    assert_eq!(v, vec![0, 1, 4, 5, 9]);
    assert_eq!(sorted_distinct(&vec![3, 1, 3, 2, 1]), vec![1, 2, 3]);
}

fn exif(creation: Vec<Option<String>>, edition: Vec<Option<String>>) -> ExifValues {
    ExifValues {
        description: Some("Lake".to_string()),
        creation_dates: creation,
        edition_dates: edition,
        latitude: Some(45_000_000),
        longitude: Some(-3_500_000),
        altitude: Some(120),
        orientation: 6,
        pixel_width: 70000,
        pixel_height: 3000,
        make: Some("Canon".to_string()),
        model: None,
        focal_length: Some(5000),
        exposure_time: Some((1, 250)),
        iso_values: vec![0, 400, 200],
        f_number: Some(28),
    }
}

#[test]
fn pictures_are_described_by_their_exif_values() {
    let p = Picture::from_exif(exif(vec![None, Some("2024:01:02 03:04:05".to_string())], vec![Some("not a date".to_string())]), 99);
    assert_eq!(p.creation_date, 1704164645);
    assert_eq!(p.edition_date, 99);
    assert_eq!(p.comment, "Lake");
    assert_eq!(p.orientation, PictureOrientation::Rotate90);
    assert_eq!((p.width, p.height), (4464, 3000));
    assert_eq!((p.exposure_time_num, p.exposure_time_den), (Some(1), Some(250)));
    assert_eq!(p.iso_speed, Some(400));
    assert_eq!(p.camera_brand, Some("Canon".to_string()));
    let q = Picture::from_exif(exif(vec![], vec![Some("2000:02:29 00:00:00".to_string())]), 5);
    assert_eq!(q.creation_date, 0);
    assert_eq!(q.edition_date, 951782400);
    let none = Picture::without_exif(7);
    assert_eq!((none.edition_date, none.orientation), (7, PictureOrientation::Unspecified));
}
