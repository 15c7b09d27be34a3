use loudness::altsound::{gain_may_be_written, AltsoundError, AltsoundPack};

const PACK: &str = "ID,CHANNEL,DUCK,GAIN,LOOP,STOP,NAME,FNAME,GROUP,SHAKER,SERIAL,PRELOAD,STOPCMD\n\
0x0001,0,100,80,0,0,\"attract\",\" music/attract.ogg \",1,,,0,\n\
0x0002,1,100,40,0,0,\"flipper\",sfx/flip.wav,2,,,0,\n";

#[test]
fn a_pack_lists_its_sounds_in_csv_order_trimmed() {
    let pack = AltsoundPack::load(PACK.as_bytes()).expect("pack");
    assert_eq!(pack.sound_files(), vec!["music/attract.ogg".to_string(), "sfx/flip.wav".to_string()]);
    assert_eq!(pack.gain_fields(), vec!["80".to_string(), "40".to_string()]);
}

#[test]
fn columns_are_found_whatever_their_case_and_padding() {
    let csv = "id, gain ,Fname\n1,50,a.wav\n";
    let pack = AltsoundPack::load(csv.as_bytes()).expect("pack");
    assert_eq!(pack.sound_files(), vec!["a.wav".to_string()]);
    assert_eq!(pack.gain_fields(), vec!["50".to_string()]);
}

#[test]
fn a_missing_gain_column_is_reported() {
    let csv = "ID,FNAME\n1,a.wav\n";
    match AltsoundPack::load(csv.as_bytes()) {
        Err(AltsoundError::MissingColumn(name)) => assert_eq!(name, "GAIN"),
        other => panic!("unexpected {:?}", other.err()),
    }
}

#[test]
fn a_missing_name_column_is_reported() {
    let csv = "ID,GAIN\n1,50\n";
    match AltsoundPack::load(csv.as_bytes()) {
        Err(AltsoundError::MissingColumn(name)) => assert_eq!(name, "FNAME"),
        other => panic!("unexpected {:?}", other.err()),
    }
}

#[test]
fn a_pack_without_sounds_is_refused() {
    let csv = "ID,GAIN,FNAME\n";
    assert!(matches!(AltsoundPack::load(csv.as_bytes()), Err(AltsoundError::NoSound)));
}

#[test]
fn unreadable_bytes_are_a_csv_error() {
    let bytes = b"ID,GAIN,FNAME\n1,50,\xff\xfe.wav\n";
    assert!(matches!(AltsoundPack::load(bytes), Err(AltsoundError::Csv(_))));
    let header = b"ID,GA\xffIN,FNAME\n1,50,a.wav\n";
    assert!(matches!(AltsoundPack::load(header), Err(AltsoundError::Csv(_))));
}

#[test]
fn short_rows_are_skipped_or_read_as_empty() {
    let csv = "ID,GAIN,FNAME\n1,50,a.wav\n2\n3,70,c.wav\n";
    let pack = AltsoundPack::load(csv.as_bytes()).expect("pack");
    assert_eq!(pack.sound_files(), vec!["a.wav".to_string(), "c.wav".to_string()]);
    assert_eq!(pack.gain_fields(), vec!["50".to_string(), String::new(), "70".to_string()]);
}

#[test]
fn rewriting_gains_keeps_every_other_column() {
    let mut pack = AltsoundPack::load(PACK.as_bytes()).expect("pack");
    pack.write_gains(&["100".to_string(), "50".to_string()]);
    let written = String::from_utf8(pack.save().expect("written")).unwrap();
    let expected = "ID,CHANNEL,DUCK,GAIN,LOOP,STOP,NAME,FNAME,GROUP,SHAKER,SERIAL,PRELOAD,STOPCMD\n\
0x0001,0,100,100,0,0,attract, music/attract.ogg ,1,,,0,\n\
0x0002,1,100,50,0,0,flipper,sfx/flip.wav,2,,,0,\n";
    assert_eq!(written, expected);
    let again = AltsoundPack::load(written.as_bytes()).expect("reloaded");
    assert_eq!(again.gain_fields(), vec!["100".to_string(), "50".to_string()]);
    assert_eq!(again.sound_files(), pack.sound_files());
}

#[test]
fn rows_of_another_length_cannot_be_written_back() {
    let csv = "ID,GAIN,FNAME\n1,50,a.wav,extra\n";
    let pack = AltsoundPack::load(csv.as_bytes()).expect("pack");
    assert!(pack.save().is_err());
}

#[test]
fn a_pack_is_built_from_a_table_already_read() {
    let header = vec!["id".to_string(), " Gain".to_string(), "FNAME ".to_string(), "gain".to_string()];
    let rows = vec![vec!["1".to_string(), "30".to_string(), " a.wav".to_string(), "99".to_string()]];
    let pack = AltsoundPack::from_table(header, rows).expect("pack");
    assert_eq!(pack.gain_fields(), vec!["30".to_string()]);
    assert_eq!(pack.sound_files(), vec!["a.wav".to_string()]);
    match AltsoundPack::from_table(vec!["GAIN".to_string()], Vec::new()) {
        Err(AltsoundError::MissingColumn(name)) => assert_eq!(name, "FNAME"),
        other => panic!("unexpected {:?}", other.err()),
    }
    assert!(matches!(
        AltsoundPack::from_table(vec!["GAIN".to_string(), "FNAME".to_string()], Vec::new()),
        Err(AltsoundError::NoSound)
    ));
}

#[test]
fn a_gain_from_part_of_a_pack_is_written_only_when_allowed() {
    assert!(gain_may_be_written(12, 12, false));
    assert!(!gain_may_be_written(11, 12, false));
    assert!(gain_may_be_written(11, 12, true));
}
