//! The node and property names the device tree scanner recognises, as
//! bytes.
use vstd::prelude::*;

verus! {

/// `#address-cells`
pub open spec fn name_address_cells() -> Seq<u8> {
    seq![35u8, 97u8, 100u8, 100u8, 114u8, 101u8, 115u8, 115u8, 45u8, 99u8, 101u8, 108u8, 108u8, 115u8]
}

/// `#address-cells`
pub(crate) fn address_cells() -> (r: [u8; 14])
    ensures
        r@ == name_address_cells(),
{
    [35, 97, 100, 100, 114, 101, 115, 115, 45, 99, 101, 108, 108, 115]
}

/// `#size-cells`
pub open spec fn name_size_cells() -> Seq<u8> {
    seq![35u8, 115u8, 105u8, 122u8, 101u8, 45u8, 99u8, 101u8, 108u8, 108u8, 115u8]
}

/// `#size-cells`
pub(crate) fn size_cells() -> (r: [u8; 11])
    ensures
        r@ == name_size_cells(),
{
    [35, 115, 105, 122, 101, 45, 99, 101, 108, 108, 115]
}

/// `reg`
pub open spec fn name_reg() -> Seq<u8> {
    seq![114u8, 101u8, 103u8]
}

/// `reg`
pub(crate) fn reg() -> (r: [u8; 3])
    ensures
        r@ == name_reg(),
{
    [114, 101, 103]
}

/// `memory`
pub open spec fn name_memory() -> Seq<u8> {
    seq![109u8, 101u8, 109u8, 111u8, 114u8, 121u8]
}

/// `memory`
pub(crate) fn memory() -> (r: [u8; 6])
    ensures
        r@ == name_memory(),
{
    [109, 101, 109, 111, 114, 121]
}

/// `device_type`
pub open spec fn name_device_type() -> Seq<u8> {
    seq![100u8, 101u8, 118u8, 105u8, 99u8, 101u8, 95u8, 116u8, 121u8, 112u8, 101u8]
}

/// `device_type`
pub(crate) fn device_type() -> (r: [u8; 11])
    ensures
        r@ == name_device_type(),
{
    [100, 101, 118, 105, 99, 101, 95, 116, 121, 112, 101]
}

/// `cpu`
pub open spec fn name_cpu() -> Seq<u8> {
    seq![99u8, 112u8, 117u8]
}

/// `cpu`
pub(crate) fn cpu() -> (r: [u8; 3])
    ensures
        r@ == name_cpu(),
{
    [99, 112, 117]
}

/// `chosen`
pub open spec fn name_chosen() -> Seq<u8> {
    seq![99u8, 104u8, 111u8, 115u8, 101u8, 110u8]
}

/// `chosen`
pub(crate) fn chosen() -> (r: [u8; 6])
    ensures
        r@ == name_chosen(),
{
    [99, 104, 111, 115, 101, 110]
}

/// `/chosen`
pub open spec fn name_slash_chosen() -> Seq<u8> {
    seq![47u8, 99u8, 104u8, 111u8, 115u8, 101u8, 110u8]
}

/// `/chosen`
pub(crate) fn slash_chosen() -> (r: [u8; 7])
    ensures
        r@ == name_slash_chosen(),
{
    [47, 99, 104, 111, 115, 101, 110]
}

/// `stdout-path`
pub open spec fn name_stdout_path() -> Seq<u8> {
    seq![115u8, 116u8, 100u8, 111u8, 117u8, 116u8, 45u8, 112u8, 97u8, 116u8, 104u8]
}

/// `stdout-path`
pub(crate) fn stdout_path() -> (r: [u8; 11])
    ensures
        r@ == name_stdout_path(),
{
    [115, 116, 100, 111, 117, 116, 45, 112, 97, 116, 104]
}

/// `compatible`
pub open spec fn name_compatible() -> Seq<u8> {
    seq![99u8, 111u8, 109u8, 112u8, 97u8, 116u8, 105u8, 98u8, 108u8, 101u8]
}

/// `compatible`
pub(crate) fn compatible() -> (r: [u8; 10])
    ensures
        r@ == name_compatible(),
{
    [99, 111, 109, 112, 97, 116, 105, 98, 108, 101]
}

/// `interrupts`
pub open spec fn name_interrupts() -> Seq<u8> {
    seq![105u8, 110u8, 116u8, 101u8, 114u8, 114u8, 117u8, 112u8, 116u8, 115u8]
}

/// `interrupts`
pub(crate) fn interrupts() -> (r: [u8; 10])
    ensures
        r@ == name_interrupts(),
{
    [105, 110, 116, 101, 114, 114, 117, 112, 116, 115]
}

/// `reg-shift`
pub open spec fn name_reg_shift() -> Seq<u8> {
    seq![114u8, 101u8, 103u8, 45u8, 115u8, 104u8, 105u8, 102u8, 116u8]
}

/// `reg-shift`
pub(crate) fn reg_shift() -> (r: [u8; 9])
    ensures
        r@ == name_reg_shift(),
{
    [114, 101, 103, 45, 115, 104, 105, 102, 116]
}

/// `reg-io-width`
pub open spec fn name_reg_io_width() -> Seq<u8> {
    seq![114u8, 101u8, 103u8, 45u8, 105u8, 111u8, 45u8, 119u8, 105u8, 100u8, 116u8, 104u8]
}

/// `reg-io-width`
pub(crate) fn reg_io_width() -> (r: [u8; 12])
    ensures
        r@ == name_reg_io_width(),
{
    [114, 101, 103, 45, 105, 111, 45, 119, 105, 100, 116, 104]
}

/// `clock-frequency`
pub open spec fn name_clock_frequency() -> Seq<u8> {
    seq![99u8, 108u8, 111u8, 99u8, 107u8, 45u8, 102u8, 114u8, 101u8, 113u8, 117u8, 101u8, 110u8, 99u8, 121u8]
}

/// `clock-frequency`
pub(crate) fn clock_frequency() -> (r: [u8; 15])
    ensures
        r@ == name_clock_frequency(),
{
    [99, 108, 111, 99, 107, 45, 102, 114, 101, 113, 117, 101, 110, 99, 121]
}

/// `current-speed`
pub open spec fn name_current_speed() -> Seq<u8> {
    seq![99u8, 117u8, 114u8, 114u8, 101u8, 110u8, 116u8, 45u8, 115u8, 112u8, 101u8, 101u8, 100u8]
}

/// `current-speed`
pub(crate) fn current_speed() -> (r: [u8; 13])
    ensures
        r@ == name_current_speed(),
{
    [99, 117, 114, 114, 101, 110, 116, 45, 115, 112, 101, 101, 100]
}

/// `cortex-a15-gic`
pub open spec fn name_gicv2() -> Seq<u8> {
    seq![99u8, 111u8, 114u8, 116u8, 101u8, 120u8, 45u8, 97u8, 49u8, 53u8, 45u8, 103u8, 105u8, 99u8]
}

/// `cortex-a15-gic`
pub(crate) fn gicv2() -> (r: [u8; 14])
    ensures
        r@ == name_gicv2(),
{
    [99, 111, 114, 116, 101, 120, 45, 97, 49, 53, 45, 103, 105, 99]
}

/// `gic-v3`
pub open spec fn name_gicv3() -> Seq<u8> {
    seq![103u8, 105u8, 99u8, 45u8, 118u8, 51u8]
}

/// `gic-v3`
pub(crate) fn gicv3() -> (r: [u8; 6])
    ensures
        r@ == name_gicv3(),
{
    [103, 105, 99, 45, 118, 51]
}

} // verus!
