use loudness::files::{locate_csv, media_files, CsvSearch};

fn names(list: &[&str]) -> Vec<Vec<u8>> {
    list.iter().map(|n| n.as_bytes().to_vec()).collect()
}

#[test]
fn media_files_are_chosen_by_extension_and_sorted() {
    let found = media_files(names(&[
        "b.MP4", "notes.txt", "a.wav", ".mp4", "c.webm", "d.mp4.bak", "e.Ogg", "noext", "f.m4a",
    ]));
    assert_eq!(found, names(&["a.wav", "b.MP4", "c.webm", "e.Ogg", "f.m4a"]));
}

#[test]
fn a_name_with_an_odd_byte_keeps_its_extension() {
    let found = media_files(vec![b"x\xff.mkv".to_vec(), b"y.avi".to_vec(), b"z.mp3".to_vec()]);
    assert_eq!(found, vec![b"x\xff.mkv".to_vec(), b"y.avi".to_vec(), b"z.mp3".to_vec()]);
}

#[test]
fn the_single_csv_of_a_folder_is_found() {
    assert_eq!(locate_csv(names(&["a.wav", "altsound-afm.CSV", "x.csv.bak"])), Ok(b"altsound-afm.CSV".to_vec()));
}

#[test]
fn no_csv_or_several_are_reported() {
    assert_eq!(locate_csv(names(&["a.wav", ".csv"])), Err(CsvSearch::NoCsv));
    assert_eq!(locate_csv(names(&["a.csv", "b.csv"])), Err(CsvSearch::SeveralCsv));
}
