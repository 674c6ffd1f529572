use vivanta::boot::boot_info::{MemoryMap, MemoryRegion, MemoryRegionKind};
use vivanta::boot::fdt::FdtScanner;
use vivanta::boot::hardware::MmioRegion;

struct Dtb {
    structs: Vec<u8>,
    strings: Vec<u8>,
}

impl Dtb {
    fn new() -> Self {
        Dtb { structs: Vec::new(), strings: Vec::new() }
    }
    fn word(&mut self, w: u32) {
        self.structs.extend_from_slice(&w.to_be_bytes());
    }
    fn pad(&mut self) {
        while self.structs.len() % 4 != 0 {
            self.structs.push(0);
        }
    }
    fn begin(&mut self, name: &str) -> &mut Self {
        self.word(1);
        self.structs.extend_from_slice(name.as_bytes());
        self.structs.push(0);
        self.pad();
        self
    }
    fn end(&mut self) -> &mut Self {
        self.word(2);
        self
    }
    fn prop(&mut self, name: &str, value: &[u8]) -> &mut Self {
        let off = self.strings.len() as u32;
        self.strings.extend_from_slice(name.as_bytes());
        self.strings.push(0);
        self.word(3);
        self.word(value.len() as u32);
        self.word(off);
        self.structs.extend_from_slice(value);
        self.pad();
        self
    }
    fn finish(&mut self, magic: u32, version: u32) -> Vec<u8> {
        self.word(9);
        let off_struct = 40 + 16;
        let off_strings = off_struct + self.structs.len();
        let total = off_strings + self.strings.len();
        let mut b = Vec::new();
        for w in [
            magic,
            total as u32,
            off_struct as u32,
            off_strings as u32,
            40,
            version,
            16,
            0,
            self.strings.len() as u32,
            self.structs.len() as u32,
        ] {
            b.extend_from_slice(&w.to_be_bytes());
        }
        b.extend_from_slice(&[0u8; 16]);
        b.extend_from_slice(&self.structs);
        b.extend_from_slice(&self.strings);
        b
    }
}

fn cells(ws: &[u32]) -> Vec<u8> {
    ws.iter().flat_map(|w| w.to_be_bytes()).collect()
}

fn sample(magic: u32, version: u32) -> Vec<u8> {
    let mut d = Dtb::new();
    d.begin("")
        .prop("#address-cells", &cells(&[2]))
        .prop("#size-cells", &cells(&[2]))
        .prop("compatible", b"linux,dummy-virt\0");
    d.begin("memory@40000000")
        .prop("device_type", b"memory\0")
        .prop("reg", &cells(&[0, 0x4000_0000, 0, 0x1000_0000]))
        .end();
    d.begin("cpus").prop("#address-cells", &cells(&[1])).prop("#size-cells", &cells(&[0]));
    d.begin("cpu@0").prop("device_type", b"cpu\0").prop("reg", &cells(&[0])).end();
    d.begin("cpu@1").prop("device_type", b"cpu\0").prop("reg", &cells(&[1])).end();
    d.end();
    d.begin("chosen").prop("stdout-path", b"/pl011@9000000:115200\0").end();
    d.begin("pl011@9000000")
        .prop("compatible", b"arm,pl011\0arm,primecell\0")
        .prop("reg", &cells(&[0, 0x0900_0000, 0, 0x1000]))
        .prop("interrupts", &cells(&[0, 1, 4]))
        .prop("clock-frequency", &cells(&[24_000_000]))
        .end();
    d.begin("intc@8000000")
        .prop("compatible", b"arm,gic-v3\0")
        .prop("interrupt-controller", b"")
        .prop("reg", &cells(&[0, 0x0800_0000, 0, 0x1_0000, 0, 0x080a_0000, 0, 0xf6_0000]))
        .end();
    d.end();
    d.finish(magic, version)
}

const MAGIC: u32 = 0xD00D_FEED;

#[test]
fn probe_collects_memory_nodes() {
    let blob = sample(MAGIC, 17);
    let mut mem = MemoryMap::new();
    assert!(FdtScanner::probe(&blob, &mut mem));
    assert_eq!(
        mem.regions(),
        &[MemoryRegion { start: 0x4000_0000, size: 0x1000_0000, kind: MemoryRegionKind::Usable }]
    );
}

#[test]
fn probe_rejects_bad_magic_and_old_versions() {
    let mut mem = MemoryMap::new();
    assert!(!FdtScanner::probe(&sample(0xDEAD_BEEF, 17), &mut mem));
    assert!(!FdtScanner::probe(&sample(MAGIC, 15), &mut mem));
    assert!(!FdtScanner::probe(&[0u8; 8], &mut mem));
    assert!(mem.regions().is_empty());
}

#[test]
fn report_counts_cpus_and_memory() {
    let blob = sample(MAGIC, 17);
    let mut mem = MemoryMap::new();
    assert_eq!(FdtScanner::report(&blob, &mut mem), 2);
    assert_eq!(mem.regions().len(), 1);
    let mut other = MemoryMap::new();
    assert_eq!(FdtScanner::report(&sample(0x1234_5678, 17), &mut other), 0);
    assert!(other.regions().is_empty());
}

#[test]
fn cpu_count_counts_cpu_nodes() {
    assert_eq!(FdtScanner::cpu_count(&sample(MAGIC, 17)), 2);
    assert_eq!(FdtScanner::cpu_count(&[0u8; 12]), 0);
}

#[test]
fn console_follows_stdout_path() {
    let node = FdtScanner::console(&sample(MAGIC, 17)).unwrap();
    assert_eq!(node.compatible, b"arm,pl011".to_vec());
    assert_eq!(node.reg, Some(MmioRegion { addr: 0x0900_0000, size: 0x1000 }));
    assert_eq!(node.irq, Some(0));
    assert_eq!(node.clock_frequency, Some(24_000_000));
    assert_eq!(node.current_speed, None);
    assert_eq!(node.reg_shift, None);
}

#[test]
fn console_absent_without_chosen() {
    let mut d = Dtb::new();
    d.begin("").begin("uart@1000").prop("compatible", b"ns16550a\0").end().end();
    assert!(FdtScanner::console(&d.finish(MAGIC, 17)).is_none());
}

#[test]
fn interrupt_controller_reads_gic_regions() {
    let gic = FdtScanner::interrupt_controller(&sample(MAGIC, 17)).unwrap();
    assert_eq!(gic.compatible, b"arm,gic-v3".to_vec());
    assert_eq!(gic.distributor, MmioRegion { addr: 0x0800_0000, size: 0x1_0000 });
    assert_eq!(gic.redistributor, Some(MmioRegion { addr: 0x080a_0000, size: 0xf6_0000 }));
}

#[test]
fn no_gic_without_matching_compatible() {
    let mut d = Dtb::new();
    d.begin("")
        .begin("intc@1000")
        .prop("compatible", b"vendor,other-intc\0")
        .prop("reg", &cells(&[0, 0x1000, 0, 0x100]))
        .end()
        .end();
    assert!(FdtScanner::interrupt_controller(&d.finish(MAGIC, 17)).is_none());
}

#[test]
fn cpu_count_follows_names_and_counts_nodes_with_children() {
    let mut d = Dtb::new();
    d.begin("");
    d.begin("cpus").prop("device_type", b"cpus\0");
    d.begin("cpu@0").prop("device_type", b"cpu\0");
    d.begin("l2-cache").prop("cache-level", &cells(&[2])).end();
    d.end();
    d.begin("cpu@1").prop("device_type", b"cpu\0").end();
    d.begin("cpu-map").begin("cluster0").end().end();
    d.end();
    // Not named cpu*: not counted even with device_type "cpu".
    d.begin("core@2").prop("device_type", b"cpu\0").end();
    d.end();
    assert_eq!(FdtScanner::cpu_count(&d.finish(MAGIC, 17)), 2);
}

#[test]
fn console_reads_only_its_own_node() {
    let mut d = Dtb::new();
    d.begin("");
    d.begin("chosen").prop("stdout-path", b"/soc/serial@1000\0").end();
    d.begin("soc");
    d.begin("serial@1000").prop("compatible", b"ns16550a\0").prop("clock-frequency", &cells(&[1_843_200]));
    d.begin("child").prop("interrupts", &cells(&[99])).end();
    d.end();
    d.begin("serial@2000")
        .prop("compatible", b"other\0")
        .prop("reg", &cells(&[0, 0x2000, 0, 0x100]))
        .prop("interrupts", &cells(&[7]))
        .prop("reg-shift", &cells(&[2]))
        .end();
    d.end();
    d.end();
    let n = FdtScanner::console(&d.finish(MAGIC, 17)).unwrap();
    assert_eq!(n.compatible, b"ns16550a".to_vec());
    assert_eq!(n.clock_frequency, Some(1_843_200));
    assert_eq!(n.reg, None);
    assert_eq!(n.irq, None);
    assert_eq!(n.reg_shift, None);
}

#[test]
fn non_utf8_strings_are_not_matched() {
    let mut d = Dtb::new();
    d.begin("");
    d.begin("chosen").prop("stdout-path", b"/uart@0\0").end();
    d.begin("uart@0").prop("compatible", b"\xffns16550a\0").end();
    d.begin("intc@0")
        .prop("compatible", b"\xc0gic-v3\0")
        .prop("reg", &cells(&[0, 0x0800_0000, 0, 0x1_0000]))
        .end();
    d.end();
    let blob = d.finish(MAGIC, 17);
    assert!(FdtScanner::console(&blob).is_none());
    assert!(FdtScanner::interrupt_controller(&blob).is_none());

    let mut d = Dtb::new();
    d.begin("");
    d.begin("chosen").prop("stdout-path", b"/uart@0\xff\0").end();
    d.begin("uart@0").prop("compatible", b"ns16550a\0").end();
    d.end();
    assert!(FdtScanner::console(&d.finish(MAGIC, 17)).is_none());
}
