use lissue::presentation::tui::layout::{centered_rect, get_layout, Rect};

fn cut(len: u32, pct: u32) -> u16 {
    ((len * pct + 50) / 100) as u16
}

#[test]
fn layout_matches_tiling_for_many_sizes() {
    for w in [0u16, 1, 2, 3, 7, 10, 13, 33, 80, 81, 99, 157] {
        for h in [7u16, 8, 9, 13, 17, 24, 31, 50] {
            for (x, y) in [(0u16, 0u16), (3, 5)] {
                let area = Rect { x, y, width: w, height: h };
                let (tabs, list, detail, files, status) = get_layout(area);
                let hb = h - 6;
                let lw = cut(w as u32, 40);
                let dh = cut(hb as u32, 70);
                assert_eq!(tabs, Rect { x, y, width: w, height: 3 }, "{w}x{h}");
                assert_eq!(status, Rect { x, y: y + h - 3, width: w, height: 3 }, "{w}x{h}");
                assert_eq!(list, Rect { x, y: y + 3, width: lw, height: hb }, "{w}x{h}");
                assert_eq!(detail, Rect { x: x + lw, y: y + 3, width: w - lw, height: dh }, "{w}x{h}");
                assert_eq!(files, Rect { x: x + lw, y: y + 3 + dh, width: w - lw, height: hb - dh }, "{w}x{h}");
            }
        }
    }
}

#[test]
fn centered_matches_percentages_for_many_sizes() {
    for w in [0u16, 1, 3, 9, 21, 80, 101] {
        for h in [0u16, 1, 5, 11, 24, 37] {
            for (px, py) in [(60u16, 20u16), (50, 50), (33, 71), (100, 0), (0, 100), (1, 99)] {
                let r = Rect { x: 2, y: 1, width: w, height: h };
                let c = centered_rect(px, py, r);
                let sy = ((100 - py) / 2) as u32;
                let sx = ((100 - px) / 2) as u32;
                let y0 = cut(h as u32, sy);
                let y1 = cut(h as u32, sy + py as u32);
                let x0 = cut(w as u32, sx);
                let x1 = cut(w as u32, sx + px as u32);
                assert_eq!(c, Rect { x: 2 + x0, y: 1 + y0, width: x1 - x0, height: y1 - y0 }, "{w}x{h} {px} {py}");
            }
        }
    }
}
