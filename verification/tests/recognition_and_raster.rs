use rnote_recognition::geometry::merge_boxes;
use parry2d_f64::bounding_volume::Aabb;
use parry2d_f64::math::Vector2;
use rnote_recognition::raster::draw_line;
use rnote_recognition::recognition::decode_best_path;
use rnote_recognition::recognition::find_known_line;
use rnote_recognition::recognition::plan_line;
use rnote_recognition::recognition::recognition_vocabulary;
use rnote_recognition::recognition::sorted_key_list;
use rnote_recognition::recognition::LinePlan;
use rnote_recognition::recognition::RecognitionRun;
use rnote_recognition::text_line::TextLine;

fn aabb(x0: f64, y0: f64, x1: f64, y1: f64) -> Aabb {
    Aabb::new(Vector2::new(x0, y0), Vector2::new(x1, y1))
}

#[test]
fn vocabulary_layout() {
    let v = recognition_vocabulary();
    assert_eq!(v.len(), 100);
    assert_eq!(v[0], '\0');
    assert_eq!(v[1], 'a');
    assert_eq!(v[27], 'ä');
    assert_eq!(v[31], 'A');
    assert_eq!(v[60], '0');
    assert_eq!(v[99], ' ');
}

#[test]
fn decode_collapses_repeats_and_blanks() {
    // h=8, e=5, l=12, o=15
    let tokens = vec![0, 8, 8, 5, 0, 12, 12, 0, 12, 15, 15, 0];
    assert_eq!(decode_best_path(&tokens), "hello");
}

#[test]
fn decode_edge_cases() {
    assert_eq!(decode_best_path(&vec![]), "");
    assert_eq!(decode_best_path(&vec![0, 0, 0]), "");
    assert_eq!(decode_best_path(&vec![1, 1, 1]), "a");
    assert_eq!(decode_best_path(&vec![1, 0, 1]), "aa");
    // tokens outside the alphabet are dropped but still block repeats
    assert_eq!(decode_best_path(&vec![1, 500, 1]), "aa");
    assert_eq!(decode_best_path(&vec![99, 31, 98]), " A\u{a7}");
}

#[test]
fn sorted_keys_fingerprint() {
    assert_eq!(sorted_key_list(&vec![5, 1, 3, 1]), vec![1, 1, 3, 5]);
    assert_eq!(sorted_key_list(&vec![]), Vec::<u64>::new());
}

fn known_lines() -> Vec<TextLine> {
    vec![
        TextLine::new("one".to_string(), vec![4, 2], aabb(0.0, 0.0, 1.0, 1.0)),
        TextLine::new("two".to_string(), vec![7, 8, 9], aabb(0.0, 2.0, 1.0, 3.0)),
        TextLine::new("two again".to_string(), vec![9, 8, 7], aabb(0.0, 4.0, 1.0, 5.0)),
    ]
}

#[test]
fn known_line_lookup_ignores_order() {
    let existing = known_lines();
    assert_eq!(find_known_line(&existing, &vec![2, 4]), Some(0));
    assert_eq!(find_known_line(&existing, &vec![8, 9, 7]), Some(1));
    assert_eq!(find_known_line(&existing, &vec![8, 9]), None);
    assert_eq!(find_known_line(&existing, &vec![2, 4, 4]), None);
}

#[test]
fn plan_reuses_or_recognizes() {
    let existing = known_lines();
    match plan_line(&vec![9, 7, 8], &existing) {
        LinePlan::Reuse(l) => assert_eq!(l.text, "two"),
        LinePlan::Recognize(_) => panic!("expected reuse"),
    }
    match plan_line(&vec![3, 1, 2], &existing) {
        LinePlan::Recognize(keys) => assert_eq!(keys, vec![1, 2, 3]),
        LinePlan::Reuse(_) => panic!("expected recognition"),
    }
}

#[test]
fn recognition_run_collects_lines() {
    let existing = known_lines();
    let mut run = RecognitionRun::new();
    assert!(run.begin_line(&vec![4, 2], &existing).is_none());
    let keys = run.begin_line(&vec![30, 10, 20], &existing).unwrap();
    assert_eq!(keys, vec![10, 20, 30]);
    run.finish_line(Some("new".to_string()), aabb(0.0, 9.0, 3.0, 10.0), keys);
    let keys2 = run.begin_line(&vec![40], &existing).unwrap();
    run.finish_line(None, aabb(0.0, 0.0, 0.0, 0.0), keys2);
    assert_eq!(run.recognized_lines.len(), 2);
    assert_eq!(run.recognized_lines[0].text, "one");
    assert_eq!(run.recognized_lines[1].text, "new");
    assert_eq!(run.recognized_lines[1].stroke_keys, vec![10, 20, 30]);
    assert_eq!(run.recognized_lines[1].bounds, aabb(0.0, 9.0, 3.0, 10.0));
}

fn painted(buf: &[u8], w: usize, h: usize, plane: usize) -> Vec<(usize, usize)> {
    let mut pts = Vec::new();
    for y in 0..h {
        for x in 0..w {
            if buf[plane * w * h + y * w + x] != 0 {
                pts.push((x, y));
            }
        }
    }
    pts
}

#[test]
fn draw_line_horizontal_and_planes() {
    let (w, h) = (6, 4);
    let mut buf = vec![0u8; 3 * w * h + 2];
    draw_line(&mut buf, w, h, 1, 2, 4, 2, 1, 2, 3);
    assert_eq!(painted(&buf, w, h, 0), vec![(1, 2), (2, 2), (3, 2), (4, 2)]);
    assert_eq!(painted(&buf, w, h, 1), vec![(1, 2), (2, 2), (3, 2), (4, 2)]);
    assert_eq!(buf[w * h + 2 * w + 1], 2);
    assert_eq!(buf[2 * w * h + 2 * w + 4], 3);
    assert_eq!(buf[3 * w * h], 0);
    assert_eq!(buf[3 * w * h + 1], 0);
}

#[test]
fn draw_line_diagonal_and_steep() {
    let (w, h) = (8, 8);
    let mut buf = vec![0u8; 3 * w * h];
    draw_line(&mut buf, w, h, 0, 0, 3, 3, 1, 1, 1);
    assert_eq!(painted(&buf, w, h, 0), vec![(0, 0), (1, 1), (2, 2), (3, 3)]);
    let mut buf = vec![0u8; 3 * w * h];
    draw_line(&mut buf, w, h, 5, 6, 4, 1, 1, 1, 1);
    assert_eq!(painted(&buf, w, h, 0), vec![(4, 1), (4, 2), (4, 3), (5, 4), (5, 5), (5, 6)]);
}

#[test]
fn draw_line_clips_to_canvas() {
    let (w, h) = (4, 3);
    let mut buf = vec![0u8; 3 * w * h];
    draw_line(&mut buf, w, h, -2, 1, 5, 1, 9, 9, 9);
    assert_eq!(painted(&buf, w, h, 0), vec![(0, 1), (1, 1), (2, 1), (3, 1)]);
    let mut buf = vec![0u8; 3 * w * h];
    draw_line(&mut buf, w, h, 10, 10, 12, 14, 9, 9, 9);
    assert!(painted(&buf, w, h, 0).is_empty());
}

#[test]
fn draw_line_single_point() {
    let (w, h) = (3, 3);
    let mut buf = vec![0u8; 3 * w * h];
    draw_line(&mut buf, w, h, 1, 1, 1, 1, 1, 1, 1);
    assert_eq!(painted(&buf, w, h, 2), vec![(1, 1)]);
}

#[test]
fn draw_line_one_point_per_major_step() {
    let (w, h) = (10, 10);
    let mut buf = vec![0u8; 3 * w * h];
    draw_line(&mut buf, w, h, 0, 0, 7, 3, 1, 1, 1);
    let pts = painted(&buf, w, h, 0);
    assert_eq!(pts.len(), 8);
    let mut xs: Vec<usize> = pts.iter().map(|p| p.0).collect();
    xs.sort();
    assert_eq!(xs, vec![0, 1, 2, 3, 4, 5, 6, 7]);
    assert!(pts.contains(&(0, 0)) && pts.contains(&(7, 3)));
}

#[test]
fn decode_never_emits_blank_symbol() {
    let text = decode_best_path(&vec![0, 3, 0, 0, 3, 3, 0, 20, 0]);
    assert_eq!(text, "cct");
    assert!(!text.contains('\0'));
}

#[test]
fn new_line_keys_are_its_strokes_sorted() {
    let keys = vec![9, 2, 9, 4];
    let sorted = sorted_key_list(&keys);
    assert_eq!(sorted, vec![2, 4, 9, 9]);
    let mut again = sorted_key_list(&vec![4, 9, 2, 9]);
    assert_eq!(sorted, again);
    again.reverse();
    assert_eq!(find_known_line(&vec![TextLine::new(String::new(), again, aabb(0.0, 0.0, 1.0, 1.0))], &keys), Some(0));
}

#[test]
fn draw_line_rows_are_rounded_ideal_rows() {
    let (w, h) = (10, 10);
    let mut buf = vec![0u8; 3 * w * h];
    draw_line(&mut buf, w, h, 0, 0, 7, 3, 1, 1, 1);
    let mut pts = painted(&buf, w, h, 0);
    pts.sort();
    // row = round(x * 3 / 7), halves up: 0, 0.43, 0.86, 1.29, 1.71, 2.14, 2.57, 3
    assert_eq!(pts, vec![(0, 0), (1, 0), (2, 1), (3, 1), (4, 2), (5, 2), (6, 3), (7, 3)]);
}

#[test]
fn merge_boxes_covers_all() {
    let start = Aabb::new_invalid();
    let boxes = vec![aabb(1.0, 2.0, 3.0, 4.0), aabb(-1.0, 3.0, 2.0, 9.0)];
    assert_eq!(merge_boxes(start, &boxes), aabb(-1.0, 2.0, 3.0, 9.0));
    assert_eq!(merge_boxes(start, &vec![]), start);
}

#[test]
fn pass_messages() {
    let existing = known_lines();
    let mut run = RecognitionRun::new();
    let m = run.messages(3);
    assert!(!m.send_result && !m.send_debug_info);
    run.begin_line(&vec![2, 4], &existing);
    let m = run.messages(0);
    assert!(m.send_result && !m.send_debug_info);
    let m = run.messages(1);
    assert!(m.send_result && m.send_debug_info);
}
