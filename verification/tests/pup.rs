use loudness::pup::PupPack;

const TRIGGERS: &str = "ID,Active,Descript,Trigger,ScreenNum,PlayList,PlayFile,Volume,Priority\n\
1,1,attract,D1,2,Attract, loop.mp4 ,80,1\n\
2,1,separator,,,,,,\n\
3,1,game,E10,2, GameClips ,,,1\n\
4,1,overlay,E11,2,Overlay,top.png,0,1\n";

const PLAYLISTS: &str = "ScreenNum,Folder,Des,AlphaSort,RestSeconds,Volume,Priority\n\
2,Attract,,0,0,50,1\n\
2,gameclips,,0,0,,1\n\
2,GameClips,,0,0,120,1\n\
2,,,0,0,10,1\n";

#[test]
fn triggers_that_name_a_playlist_are_kept_with_their_row() {
    let pack = PupPack::load(None, TRIGGERS.as_bytes()).expect("pack");
    assert_eq!(pack.triggers.len(), 3);
    let rows: Vec<usize> = pack.triggers.iter().map(|t| t.row).collect();
    assert_eq!(rows, vec![0, 2, 3]);
    assert_eq!(pack.triggers[0].playlist, "Attract");
    assert_eq!(pack.triggers[0].play_file.as_deref(), Some("loop.mp4"));
    assert_eq!(pack.triggers[0].volume.as_deref(), Some("80"));
    assert_eq!(pack.triggers[1].playlist, "GameClips");
    assert_eq!(pack.triggers[1].play_file, None);
    assert_eq!(pack.triggers[1].volume, None);
    assert_eq!(pack.triggers[2].volume.as_deref(), Some("0"));
    assert!(pack.playlists.is_empty());
}

#[test]
fn playlists_are_found_by_folder_whatever_the_case_and_the_later_row_wins() {
    let pack = PupPack::load(Some(PLAYLISTS.as_bytes()), TRIGGERS.as_bytes()).expect("pack");
    assert_eq!(pack.playlists.len(), 2);
    let attract = pack.playlist_for("ATTRACT").expect("attract");
    assert_eq!(attract.row, 0);
    assert_eq!(attract.folder, "Attract");
    assert_eq!(attract.volume.as_deref(), Some("50"));
    let game = pack.playlist_for(&pack.triggers[1].playlist).expect("game clips");
    assert_eq!(game.row, 2);
    assert_eq!(game.folder, "GameClips");
    assert_eq!(game.volume.as_deref(), Some("120"));
    assert!(pack.playlist_for("Overlay").is_none());
}

#[test]
fn an_unreadable_table_fails_the_load() {
    assert!(PupPack::load(None, b"a,b\n1,\xff\n").is_err());
    assert!(PupPack::load(Some(b"a,b\n1,\xff\n"), TRIGGERS.as_bytes()).is_err());
}

#[test]
fn a_pack_is_built_from_rows_already_read() {
    let row = |fields: &[&str]| fields.iter().map(|f| f.to_string()).collect::<Vec<String>>();
    let triggers = vec![row(&["1", "1", "x", "D1", "2", " Music ", "", " 70 "]), row(&["2"])];
    let playlists = vec![row(&["2", "MUSIC", "", "0", "0", "40"]), row(&["2", "music", "", "0", "0", ""])];
    let pack = PupPack::from_rows(Some(playlists), triggers);
    assert_eq!(pack.triggers.len(), 1);
    assert_eq!(pack.triggers[0].playlist, "Music");
    assert_eq!(pack.triggers[0].volume.as_deref(), Some("70"));
    let music = pack.playlist_for("Music").expect("music");
    assert_eq!(music.row, 1);
    assert_eq!(music.volume, None);
}
