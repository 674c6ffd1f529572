use vivanta::elf::{LoadSegment, PF_R, PF_W, PF_X};
use vivanta::exec::{flags_from_pflags, segment_copies, PageCopy};

#[test]
fn pflags_map_to_user_permissions() {
    let rx = flags_from_pflags(PF_R | PF_X);
    assert!(rx.is_user() && rx.is_executable() && !rx.is_read_write());
    let rw = flags_from_pflags(PF_R | PF_W);
    assert!(rw.is_user() && rw.is_read_write() && !rw.is_executable());
    let r = flags_from_pflags(PF_R);
    assert!(r.is_user() && !r.is_read_write() && !r.is_executable());
}

fn seg(va_start: u64, file_off: u64, filesz: u64) -> LoadSegment {
    LoadSegment { va_start, va_end: va_start + 0x4000, file_off, filesz, memsz: filesz, flags: PF_R }
}

#[test]
fn file_data_is_copied_page_by_page() {
    assert_eq!(
        segment_copies(&seg(0x40_0000, 0x1000, 5000)),
        vec![
            PageCopy { page_va: 0x40_0000, page_off: 0, src_off: 0x1000, len: 4096 },
            PageCopy { page_va: 0x40_1000, page_off: 0, src_off: 0x2000, len: 904 },
        ]
    );
    assert_eq!(
        segment_copies(&seg(0x40_0800, 0, 4096)),
        vec![
            PageCopy { page_va: 0x40_0000, page_off: 0x800, src_off: 0, len: 2048 },
            PageCopy { page_va: 0x40_1000, page_off: 0, src_off: 2048, len: 2048 },
        ]
    );
    assert!(segment_copies(&seg(0x40_0000, 0, 0)).is_empty());
}

#[test]
fn file_data_keeps_its_in_page_offset() {
    // p_vaddr 0x400100 rounds down to 0x400000; the data starts 0x100 into
    // the page, as its file offset 0x1100 says.
    assert_eq!(
        segment_copies(&seg(0x40_0000, 0x1100, 0x100)),
        vec![PageCopy { page_va: 0x40_0000, page_off: 0x100, src_off: 0x1100, len: 0x100 }]
    );
    assert_eq!(
        segment_copies(&seg(0x40_0000, 0x1f00, 0x200)),
        vec![
            PageCopy { page_va: 0x40_0000, page_off: 0xf00, src_off: 0x1f00, len: 0x100 },
            PageCopy { page_va: 0x40_1000, page_off: 0, src_off: 0x2000, len: 0x100 },
        ]
    );
}
