use netiso_srv::probe::{get_data_start, is_signature, ProbeStep, Prober, XGD_MAGIC};

const TRIGGERS: [u64; 3] = [0x0fda_0000, 0x0209_0000, 0x0001_0000];
const DATA_STARTS: [u64; 3] = [0x0fd9_0000, 0x0208_0000, 0];

/// Walks a file of `file_len` bytes that holds the signature at the offsets
/// of `marked` and zeroes elsewhere; returns the data start and the
/// offsets that were read.
fn walk(file_len: u64, marked: &[u64]) -> (u64, Vec<u64>) {
    let mut reads: Vec<u64> = Vec::new();
    let (mut prober, mut step) = Prober::start(file_len);
    loop {
        match step {
            ProbeStep::Done { data_start } => return (data_start, reads),
            ProbeStep::Read { offset } => {
                assert!(offset + 20 <= file_len);
                reads.push(offset);
                let window: Vec<u8> = if marked.contains(&offset) {
                    XGD_MAGIC.to_vec()
                } else {
                    vec![0u8; 20]
                };
                step = prober.advance(&window);
            }
        }
    }
}

fn image_with_signature_at(len: usize, offsets: &[usize]) -> Vec<u8> {
    let mut image: Vec<u8> = vec![0u8; len];
    for offset in offsets.iter() {
        image[*offset..*offset + 20].copy_from_slice(b"MICROSOFT*XBOX*MEDIA");
    }
    image
}

#[test]
fn signature_constant_spells_its_ascii_text() {
    assert_eq!(&XGD_MAGIC, b"MICROSOFT*XBOX*MEDIA");
    assert!(is_signature(b"MICROSOFT*XBOX*MEDIA"));
    assert!(!is_signature(b"MICROSOFT*XBOX*MEDIa"));
    assert!(!is_signature(b"MICROSOFT*XBOX*MEDI"));
    assert!(!is_signature(b"MICROSOFT*XBOX*MEDIA "));
    assert!(!is_signature(b""));
}

#[test]
fn signature_at_one_trigger_gives_the_paired_data_start() {
    let file_len: u64 = 0x1000_0000;
    for k in 0..3 {
        let (data_start, _) = walk(file_len, &[TRIGGERS[k]]);
        assert_eq!(data_start, DATA_STARTS[k]);
    }
}

#[test]
fn no_signature_gives_data_start_zero() {
    let (data_start, reads) = walk(0x1000_0000, &[]);
    assert_eq!(data_start, 0);
    assert_eq!(reads, TRIGGERS.to_vec());
}

#[test]
fn first_layout_in_probing_order_wins() {
    let (data_start, reads) = walk(0x1000_0000, &TRIGGERS);
    assert_eq!(data_start, 0x0fd9_0000);
    assert_eq!(reads, vec![0x0fda_0000]);
    let (data_start, reads) = walk(0x1000_0000, &[TRIGGERS[1], TRIGGERS[2]]);
    assert_eq!(data_start, 0x0208_0000);
    assert_eq!(reads, vec![0x0fda_0000, 0x0209_0000]);
}

#[test]
fn layouts_that_do_not_fit_are_not_read() {
    let (data_start, reads) = walk(0x0209_0000 + 20, &[TRIGGERS[1]]);
    assert_eq!(data_start, 0x0208_0000);
    assert_eq!(reads, vec![0x0209_0000]);
    let (data_start, reads) = walk(0x0209_0000 + 19, &[TRIGGERS[1]]);
    assert_eq!(data_start, 0);
    assert_eq!(reads, vec![0x0001_0000]);
    let (data_start, reads) = walk(0x0001_0000 + 19, &[]);
    assert_eq!(data_start, 0);
    assert_eq!(reads, Vec::<u64>::new());
    let (data_start, reads) = walk(0, &[]);
    assert_eq!(data_start, 0);
    assert_eq!(reads, Vec::<u64>::new());
}

#[test]
fn a_finished_prober_stays_finished() {
    let (mut prober, step) = Prober::start(0x0001_0000 + 20);
    assert_eq!(step, ProbeStep::Read { offset: 0x0001_0000 });
    assert_eq!(prober.advance(&XGD_MAGIC), ProbeStep::Done { data_start: 0 });
    assert_eq!(prober.advance(&XGD_MAGIC), ProbeStep::Done { data_start: 0 });
    let (mut prober, _) = Prober::start(0x0209_0000 + 20);
    assert_eq!(prober.advance(&XGD_MAGIC), ProbeStep::Done { data_start: 0x0208_0000 });
    assert_eq!(prober.advance(&[0u8; 20]), ProbeStep::Done { data_start: 0 });
}

#[test]
fn image_in_memory_third_layout() {
    let image = image_with_signature_at(0x0001_0000 + 20, &[0x0001_0000]);
    assert_eq!(get_data_start(&image), 0);
}

#[test]
fn image_in_memory_second_layout() {
    let image = image_with_signature_at(0x0209_0000 + 20, &[0x0209_0000]);
    assert_eq!(get_data_start(&image), 0x0208_0000);
    let image = image_with_signature_at(0x0209_0000 + 20, &[0x0209_0000, 0x0001_0000]);
    assert_eq!(get_data_start(&image), 0x0208_0000);
}

#[test]
fn image_in_memory_first_layout() {
    let image = image_with_signature_at(0x0fda_0000 + 20, &[0x0fda_0000]);
    assert_eq!(get_data_start(&image), 0x0fd9_0000);
}

#[test]
fn image_in_memory_without_signature() {
    assert_eq!(get_data_start(&[]), 0);
    assert_eq!(get_data_start(&vec![0u8; 0x0001_0000 + 20]), 0);
    // The signature one byte off the trigger does not count.
    let image = image_with_signature_at(0x0001_0000 + 40, &[0x0001_0001]);
    assert_eq!(get_data_start(&image), 0);
    // Nor does a signature that the file is one byte too short to hold.
    let mut image = image_with_signature_at(0x0001_0000 + 20, &[0x0001_0000]);
    image.pop();
    assert_eq!(get_data_start(&image), 0);
}
