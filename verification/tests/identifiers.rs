//! Resource identifiers in their three written shapes, and the plain error
//! type.

use sfs::error::SfsError;
use sfs::id::{GenericResourceIdentifier, Playlist, Track};
use sfs::request::{ResourceIdentifier, Track as ReqTrack, ID, URI, URL};

const TRACK_ID: &str = "4uLU6hMCjMI75M1A2tKUQC";

#[test]
fn bare_id_is_accepted() {
    let t = GenericResourceIdentifier::<Track>::new(TRACK_ID).unwrap();
    assert_eq!(t.id(), TRACK_ID);
}

#[test]
fn uri_yields_its_id() {
    let uri = format!("spotify:track:{}", TRACK_ID);
    let t = GenericResourceIdentifier::<Track>::new(&uri).unwrap();
    assert_eq!(t.id(), TRACK_ID);
}

#[test]
fn url_yields_its_id() {
    let url = format!("https://open.spotify.com/playlist/{}", TRACK_ID);
    let p = GenericResourceIdentifier::<Playlist>::new(&url).unwrap();
    assert_eq!(p.id(), TRACK_ID);
}

#[test]
fn url_with_share_tag_yields_its_id() {
    let url = format!("https://open.spotify.com/track/{}?si=AbC123xyz", TRACK_ID);
    let t = GenericResourceIdentifier::<Track>::new(&url).unwrap();
    assert_eq!(t.id(), TRACK_ID);
}

#[test]
fn malformed_identifiers_are_rejected() {
    for bad in [
        "short",
        "4uLU6hMCjMI75M1A2tKUQ!",
        "spotify:album:4uLU6hMCjMI75M1A2tKUQC",
        "spotify:track:short",
        "https://open.spotify.com/track/short",
        "https://open.spotify.com/track/4uLU6hMCjMI75M1A2tKUQC?x=1",
        "http://open.spotify.com/track/4uLU6hMCjMI75M1A2tKUQC",
    ] {
        assert!(
            GenericResourceIdentifier::<Track>::new(bad).is_err(),
            "accepted: {bad}"
        );
    }
}

#[test]
fn uri_and_url_are_rebuilt_from_the_id() {
    let t = GenericResourceIdentifier::<Track>::new(TRACK_ID).unwrap();
    assert_eq!(t.uri(), format!("spotify:track:{}", TRACK_ID));
    assert_eq!(t.url(), format!("https://open.spotify.com/track/{}", TRACK_ID));
}

#[test]
fn shaped_identifier_keeps_the_whole_text() {
    let r = ResourceIdentifier::<ID, ReqTrack>::new(TRACK_ID).unwrap();
    assert_eq!(r.identifier, TRACK_ID);
    let uri = format!("spotify:track:{}", TRACK_ID);
    let r = ResourceIdentifier::<URI, ReqTrack>::new(&uri).unwrap();
    assert_eq!(r.identifier, uri);
    let url = format!("https://open.spotify.com/track/{}", TRACK_ID);
    let r = ResourceIdentifier::<URL, ReqTrack>::new(&url).unwrap();
    assert_eq!(r.identifier, url);
}

#[test]
fn shaped_identifier_rejects_the_other_shapes() {
    let uri = format!("spotify:track:{}", TRACK_ID);
    let e = ResourceIdentifier::<ID, ReqTrack>::new(&uri).err().unwrap();
    assert_eq!(e.message(), format!("Invalid track ID: {}", uri));
    assert!(ResourceIdentifier::<URI, ReqTrack>::new(TRACK_ID).is_err());
    assert!(ResourceIdentifier::<URL, ReqTrack>::new(TRACK_ID).is_err());
}

#[test]
fn plain_errors_carry_their_message() {
    assert_eq!(SfsError::new("went wrong").message(), "went wrong");
    assert_eq!(SfsError::new_box("boxed").message(), "boxed");
}
