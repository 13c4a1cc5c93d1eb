use bebop::bank::DRAM_BASE;
use bebop::guest::{align_down, align_up, guest_offset, u64_from_le, u64_to_le, write_guest, GuestError, PAGE_SIZE};
use bebop::pk::{PkVm, USER_STACK_SIZE, USER_TOP};
use bebop::pk_setup::{
    check_loaded_entry, encode_jal, hart_init, heap_layout, install_dtb, install_pk_trap_handler, map_syscall_result, mapping_change,
    segment_perms, setup_tls, user_image_addr, ElfAnalysis, LoadInfo, LoadSegment, MappingChange, ProgramHeaders,
    TlsInfo, PK_INITIAL_SP,
};

fn load(is_pie: bool, tls: Option<TlsInfo>) -> LoadInfo {
    LoadInfo {
        entry: DRAM_BASE + 0x100,
        image_end: DRAM_BASE + 0x3000,
        tls,
        analysis: ElfAnalysis {
            original_entry: 0x10100,
            entry: DRAM_BASE + 0x100,
            min_vaddr: 0x10000,
            max_vaddr: 0x12800,
            image_end: DRAM_BASE + 0x3000,
            needs_relocation: false,
            is_pie,
            load_segments: vec![LoadSegment { vaddr: 0x10000, memsz: 0x2800, flags: 5 }],
        },
        program_headers: ProgramHeaders { addr: DRAM_BASE + 0x40, entry_size: 56, count: 2 },
    }
}

#[test]
fn guest_offsets_and_their_errors() {
    let memory = vec![0u8; 64];
    assert_eq!(guest_offset(&memory, DRAM_BASE + 5), Ok(5));
    assert_eq!(guest_offset(&memory, 0x1000), Err(GuestError::BelowDram { addr: 0x1000 }));
    assert_eq!(guest_offset(&memory, DRAM_BASE + 64), Err(GuestError::OutsideMemory { addr: DRAM_BASE + 64 }));
    let mut memory = memory;
    assert_eq!(write_guest(&mut memory, DRAM_BASE + 60, &[1, 2, 3, 4]), Ok(()));
    assert_eq!(&memory[60..], &[1, 2, 3, 4]);
    assert_eq!(
        write_guest(&mut memory, DRAM_BASE + 62, &[1, 2, 3]),
        Err(GuestError::WriteExceeds { addr: DRAM_BASE + 62, size: 3 })
    );
}

#[test]
fn little_endian_words_round_trip() {
    let bytes = u64_to_le(0x0102_0304_0506_0708);
    assert_eq!(bytes, vec![8, 7, 6, 5, 4, 3, 2, 1]);
    assert_eq!(u64_from_le(&bytes, 0), 0x0102_0304_0506_0708);
}

#[test]
fn page_alignment() {
    assert_eq!(align_down(0x1234, PAGE_SIZE), 0x1000);
    assert_eq!(align_up(0x1234, PAGE_SIZE), 0x2000);
    assert_eq!(align_up(0x2000, PAGE_SIZE), 0x2000);
}

#[test]
fn trap_handler_jumps_one_page_ahead() {
    assert_eq!(encode_jal(0x1000), 0x106f);
    let mut memory = vec![0u8; 0x4000];
    let addr = install_pk_trap_handler(&mut memory).unwrap();
    assert_eq!(addr, DRAM_BASE + 0x2000);
    assert_eq!(&memory[0x2000..0x2004], &[0x6f, 0x10, 0, 0]);
}

#[test]
fn device_tree_lands_two_mebibytes_below_the_end() {
    let mut memory = vec![0u8; 0x40_0000];
    let dtb = [0xd0, 0x0d, 0xfe, 0xed];
    let addr = install_dtb(&mut memory, &dtb).unwrap();
    assert_eq!(addr, DRAM_BASE + 0x1f_f000);
    assert_eq!(&memory[0x1f_f000..0x1f_f004], &dtb);
}

#[test]
fn thread_pointer_block_is_initialised() {
    let mut memory = vec![0u8; 0x2_0000];
    memory[0x100..0x108].copy_from_slice(&[1, 2, 3, 4, 5, 6, 7, 8]);
    let tls = TlsInfo { vaddr: DRAM_BASE + 0x100, filesz: 8, memsz: 24, align: 8 };
    let tp = setup_tls(&mut memory, Some(tls)).unwrap().unwrap();
    let off = (tp - DRAM_BASE) as usize;
    assert_eq!(tp % 16, 0);
    assert_eq!(u64_from_le(&memory, off), tp);
    assert_eq!(&memory[off + 8..off + 24], &[0u8; 16]);
    assert_eq!(setup_tls(&mut memory, None), Ok(None));
}

#[test]
fn segment_permissions_and_user_addresses() {
    assert_eq!(segment_perms(5), 2 | 8);
    assert_eq!(segment_perms(6), 2 | 4);
    let pie = load(true, None);
    assert_eq!(user_image_addr(&pie, DRAM_BASE + 0x40), Ok(0x10040));
    assert_eq!(user_image_addr(&pie, 0x10), Err(GuestError::ImageAddress { addr: 0x10 }));
    assert_eq!(user_image_addr(&load(false, None), 0x10), Ok(0x10));
}

#[test]
fn system_call_results_change_mappings() {
    assert_eq!(
        mapping_change(0x1_0000, 214, 0x1_3000, 0, 0x1_3000),
        Some(MappingChange::Allocate { virt: 0x1_0000, len: 0x3000 })
    );
    assert_eq!(mapping_change(0x1_0000, 222, 0, 0x2000, 0x5000_0000), Some(MappingChange::Allocate { virt: 0x5000_0000, len: 0x2000 }));
    assert_eq!(mapping_change(0x1_0000, 215, 0x5000_0000, 0x2000, 0), Some(MappingChange::Free { virt: 0x5000_0000, len: 0x2000 }));
    assert_eq!(mapping_change(0x1_0000, 222, 0, 0x2000, u64::MAX - 11), None);
}

#[test]
fn heap_layouts() {
    let l = load(false, None);
    assert_eq!(heap_layout(&l, 0x100_0000, false), (DRAM_BASE + 0x3000, DRAM_BASE + 0x80_0000));
    assert_eq!(heap_layout(&l, 0x100_0000, true), (0x13000, 0x8000_0000));
}

#[test]
fn bare_metal_hart_starts_at_the_entry_with_the_device_tree() {
    let mut memory = vec![0u8; 0x100_0000];
    let h = hart_init(&mut memory, &load(false, None), &[1, 2, 3, 4], false).unwrap();
    assert_eq!(h.entry, DRAM_BASE + 0x100);
    assert_eq!(h.satp, 0);
    assert_eq!(h.regs.a1, DRAM_BASE + 0xdf_f000);
    assert!(h.tp.is_none() && h.pk_vm.is_none() && h.mem_bounds.is_none());
}

#[test]
fn proxy_kernel_hart_runs_translated_from_its_user_stack() {
    let mut memory = vec![0u8; 0x500_0000];
    let h = hart_init(&mut memory, &load(true, None), &[1, 2, 3, 4], true).unwrap();
    assert_eq!(h.entry, 0x10100);
    assert_eq!(h.regs.sp, PK_INITIAL_SP);
    assert_eq!(h.mem_bounds, Some((0x10000, USER_TOP - USER_STACK_SIZE)));
    let vm = h.pk_vm.unwrap();
    assert_eq!(h.satp >> 60, 8);
    assert_eq!(vm.virt_to_phys(0x10040, 8), Some(DRAM_BASE + 0x40));
    assert!(vm.virt_to_phys(PK_INITIAL_SP, 8).is_some());
    assert_eq!(vm.virt_to_phys(0x9000_0000, 8), None);
}

#[test]
fn user_pages_come_from_the_reserve_and_return_to_it() {
    let mut memory = vec![0u8; 0x40_0000];
    let mut vm = PkVm::new(&mut memory, DRAM_BASE + 0x10_0000, DRAM_BASE + 0x20_0000, DRAM_BASE + 0x20_0000, DRAM_BASE + 0x30_0000).unwrap();
    vm.alloc_user_pages(&mut memory, 0x4000_0000, 0x2000, 6).unwrap();
    let phys = vm.virt_to_phys(0x4000_0000, 0x2000).unwrap();
    assert_eq!(phys, DRAM_BASE + 0x20_0000);
    vm.write_user(&mut memory, 0x4000_0010, &[9, 9]).unwrap();
    assert_eq!(&memory[0x20_0010..0x20_0012], &[9, 9]);
    assert_eq!(
        vm.write_user(&mut memory, 0x5000_0000, &[1]),
        Err(GuestError::UnmappedUserWrite { addr: 0x5000_0000, size: 1 })
    );
    vm.free_user_pages(0x4000_0000, 0x2000).unwrap();
    assert_eq!(vm.take_free_pages(0x1000), Some(DRAM_BASE + 0x20_0000));
    assert_eq!(vm.take_free_pages(0x1000), Some(DRAM_BASE + 0x20_1000));
    assert_eq!(vm.take_free_pages(0x1000), None);
}

#[test]
fn a_grown_break_maps_its_new_pages() {
    let mut memory = vec![0u8; 0x40_0000];
    let mut vm = PkVm::new(&mut memory, DRAM_BASE + 0x10_0000, DRAM_BASE + 0x20_0000, DRAM_BASE + 0x20_0000, DRAM_BASE + 0x30_0000).unwrap();
    map_syscall_result(&mut memory, &mut vm, 0x1_0000, 214, 0x1_1800, 0, 0x1_1800).unwrap();
    assert!(vm.virt_to_phys(0x1_0000, 0x2000).is_some());
    assert!(vm.virt_to_phys(0x1_2000, 1).is_none());
}

#[test]
fn a_program_must_start_inside_guest_memory() {
    let info = load(false, None);
    assert_eq!(check_loaded_entry(&info, 0x1000), Ok(()));
    assert_eq!(check_loaded_entry(&info, 0x100), Err(GuestError::EntryOutsideMemory { entry: DRAM_BASE + 0x100 }));
    let low = LoadInfo { entry: 0x100, ..load(false, None) };
    assert_eq!(check_loaded_entry(&low, 0x1000), Err(GuestError::EntryOutsideMemory { entry: 0x100 }));
}

#[test]
fn a_mapped_page_is_reached_by_walking_the_tables() {
    let mut memory = vec![0u8; 0x40_0000];
    let root = DRAM_BASE + 0x10_0000;
    let mut vm = PkVm::new(&mut memory, root, DRAM_BASE + 0x20_0000, DRAM_BASE + 0x20_0000, DRAM_BASE + 0x30_0000).unwrap();
    let virt = 0x4000_1000u64;
    let phys = DRAM_BASE + 0x25_0000;
    vm.map_page(&mut memory, virt, phys, 0x2).unwrap();
    let e2 = pte(&vm, &memory, root, (virt >> 30) & 0x1ff);
    assert_eq!(e2 & 1, 1);
    let l2 = ((e2 >> 10) << 12) & !0xfff;
    let e1 = pte(&vm, &memory, l2, (virt >> 21) & 0x1ff);
    assert_eq!(e1 & 1, 1);
    let l1 = ((e1 >> 10) << 12) & !0xfff;
    let leaf = pte(&vm, &memory, l1, (virt >> 12) & 0x1ff);
    assert_eq!(leaf, ((phys >> 12) << 10) | 0x2 | 0x1 | 0x10 | 0x40 | 0x80);
    assert_eq!(l2, root + 0x1000);
    assert_eq!(l1, root + 0x2000);
    let next = 0x4000_2000u64;
    vm.map_page(&mut memory, next, phys + 0x1000, 0x2).unwrap();
    assert_eq!(pte(&vm, &memory, l1, (virt >> 12) & 0x1ff), leaf);
    assert_eq!(vm.next_pt, root + 0x3000);
}

fn pte(vm: &PkVm, memory: &Vec<u8>, table: u64, idx: u64) -> u64 {
    vm.read_pte(memory, table, idx).unwrap()
}

#[test]
fn memory_too_small_for_the_device_tree_is_an_error() {
    let mut memory = vec![0u8; 0x1000];
    let r = hart_init(&mut memory, &load(false, None), &[1, 2, 3, 4], false);
    assert_eq!(r.err(), Some(GuestError::BelowDram { addr: 0x7fe0_0000 }));
    assert_eq!(memory, vec![0u8; 0x1000]);
    assert_eq!(heap_layout(&load(false, None), 0x1000, false).1, DRAM_BASE - 0x7f_f000);
}

#[test]
fn bare_metal_hart_gets_the_thread_pointer_of_its_tls() {
    let mut memory = vec![0u8; 0x100_0000];
    let tls = TlsInfo { vaddr: DRAM_BASE + 0x100, filesz: 8, memsz: 24, align: 8 };
    let h = hart_init(&mut memory, &load(false, Some(tls)), &[1, 2, 3, 4], false).unwrap();
    assert_eq!(h.tp, Some(DRAM_BASE + 0xfe_ffd0));
}
