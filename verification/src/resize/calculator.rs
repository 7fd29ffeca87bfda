//! The new-size calculator: from the current boot sector and the sector
//! count of the device to the geometry of the grown volume.

use crate::error::{CalculationFault, Error};
use crate::fat32::layout;
use crate::fat32::structs::BootSector;
use crate::fat32::validation::{is_fat32_geometry, lemma_fat32_geometry_defined};
use vstd::prelude::*;

verus! {

/// What a resize will change, as far as sizes go.
#[derive(Debug, Clone, Copy, PartialEq, Eq)]
pub struct SizeCalculation {
    /// Total sectors of the volume before the resize.
    pub old_total_sectors: u32,
    /// Total sectors of the volume after the resize.
    pub new_total_sectors: u32,
    /// Sectors per FAT before the resize.
    pub old_fat_size: u32,
    /// Sectors per FAT after the resize.
    pub new_fat_size: u32,
    /// Data clusters after the resize.
    pub new_data_clusters: u32,
    /// Clusters that the resize adds; all of them are free.
    pub new_free_clusters: u32,
    /// Whether each FAT gets longer.
    pub fat_needs_growth: bool,
    /// Sectors by which each FAT gets longer.
    pub fat_growth_sectors: u32,
    /// First cluster whose sectors lie where the longer FATs will be.
    pub first_affected_cluster: u32,
    /// Last cluster whose sectors lie where the longer FATs will be.
    pub last_affected_cluster: u32,
}

impl SizeCalculation {
    /// The growth of the volume in bytes.
    pub fn size_increase(&self, bytes_per_sector: u16) -> (r: u64)
        requires
            self.new_total_sectors >= self.old_total_sectors,
        ensures
            r == (self.new_total_sectors - self.old_total_sectors) * bytes_per_sector,
    {
        let increase_sectors: u32 = self.new_total_sectors - self.old_total_sectors;
        assert(increase_sectors * bytes_per_sector <= 0xFFFF_FFFF * 0xFFFF) by (nonlinear_arith)
            requires
                increase_sectors <= 0xFFFF_FFFF,
                bytes_per_sector <= 0xFFFF,
        ;
        increase_sectors as u64 * bytes_per_sector as u64
    }

    /// The size of the grown volume in bytes.
    pub fn new_size_bytes(&self, bytes_per_sector: u16) -> (r: u64)
        ensures
            r == self.new_total_sectors * bytes_per_sector,
    {
        assert(self.new_total_sectors * bytes_per_sector <= 0xFFFF_FFFF * 0xFFFF)
            by (nonlinear_arith)
            requires
                self.new_total_sectors <= 0xFFFF_FFFF,
                bytes_per_sector <= 0xFFFF,
        ;
        self.new_total_sectors as u64 * bytes_per_sector as u64
    }

    /// The clusters gained over `old_data_clusters`; 0 where none is.
    pub fn additional_clusters(&self, old_data_clusters: u32) -> (r: u32)
        ensures
            r == clusters_gained(self.new_data_clusters as int, old_data_clusters as int),
    {
        self.new_data_clusters.saturating_sub(old_data_clusters)
    }
}

/// `a` divided by `b`, rounded up.
pub open spec fn div_ceil(a: int, b: int) -> int {
    (a + b - 1) / b
}

/// The clusters gained when the count goes from `old` to `new`; 0 where the
/// count does not rise.
pub open spec fn clusters_gained(new: int, old: int) -> int {
    if new >= old {
        new - old
    } else {
        0
    }
}

/// The divisor of the FAT size formula: the data sectors that one FAT
/// sector of 4-byte entries describes, and a share of the FAT copies.
pub open spec fn fat_size_divisor(num_fats: u8, sectors_per_cluster: u8, bytes_per_sector: u16) -> int {
    (bytes_per_sector / 4) * sectors_per_cluster + num_fats / 2
}

/// The FAT size that the formula of the FAT specification gives for a
/// volume of `total_sectors` sectors.
pub open spec fn required_fat_size(
    total_sectors: u32,
    reserved_sectors: u16,
    num_fats: u8,
    sectors_per_cluster: u8,
    bytes_per_sector: u16,
) -> int {
    div_ceil(
        total_sectors - reserved_sectors,
        fat_size_divisor(num_fats, sectors_per_cluster, bytes_per_sector),
    )
}

/// The sectors that remain for data on a volume of `total_sectors` sectors
/// with FATs of `fat_size` sectors; 0 where the metadata alone fills it.
pub open spec fn data_sectors_for(
    total_sectors: int,
    reserved_sectors: int,
    num_fats: int,
    fat_size: int,
) -> int {
    let rest = total_sectors - reserved_sectors - num_fats * fat_size;
    if rest >= 0 {
        rest
    } else {
        0
    }
}

/// The clusters whose sectors lie under `fat_growth_sectors` more sectors
/// in each of `num_fats` FATs.
pub open spec fn affected_clusters(fat_growth_sectors: int, num_fats: int, sectors_per_cluster: int) -> int {
    div_ceil(fat_growth_sectors * num_fats, sectors_per_cluster)
}

/// The calculation for growing the volume of boot sector `raw` to
/// `new_total_sectors` sectors with FATs of `new_fat_size` sectors.
pub open spec fn calculation_for(raw: Seq<u8>, new_total_sectors: u32, new_fat_size: u32) -> SizeCalculation {
    let old_fat_size = layout::fat_size(raw);
    let growth = clusters_gained(new_fat_size as int, old_fat_size as int);
    let new_clusters = data_sectors_for(
        new_total_sectors as int,
        layout::reserved_sectors(raw) as int,
        layout::num_fats(raw) as int,
        new_fat_size as int,
    ) / (layout::sectors_per_cluster(raw) as int);
    SizeCalculation {
        old_total_sectors: layout::total_sectors(raw),
        new_total_sectors,
        old_fat_size,
        new_fat_size,
        new_data_clusters: new_clusters as u32,
        new_free_clusters: clusters_gained(new_clusters, layout::data_clusters(raw)) as u32,
        fat_needs_growth: new_fat_size > old_fat_size,
        fat_growth_sectors: growth as u32,
        first_affected_cluster: 2,
        last_affected_cluster: (1 + affected_clusters(
            growth,
            layout::num_fats(raw) as int,
            layout::sectors_per_cluster(raw) as int,
        )) as u32,
    }
}

/// The FAT size of the volume of boot sector `raw` once it has
/// `new_total_sectors` sectors.
pub open spec fn new_fat_size_for(raw: Seq<u8>, new_total_sectors: u32) -> int {
    required_fat_size(
        new_total_sectors,
        layout::reserved_sectors(raw),
        layout::num_fats(raw),
        layout::sectors_per_cluster(raw),
        layout::bytes_per_sector(raw),
    )
}

/// What the size calculation gives for boot sector `raw` on a device of
/// `device_sectors` sectors: the error that applies first, or the
/// calculation.
pub open spec fn new_size(raw: Seq<u8>, device_sectors: u64) -> Result<SizeCalculation, Error> {
    if device_sectors > u32::MAX {
        Err(Error::Calculation(CalculationFault::DeviceTooLarge(device_sectors)))
    } else if device_sectors < layout::total_sectors(raw) {
        Err(Error::ShrinkNotSupported)
    } else if device_sectors == layout::total_sectors(raw) {
        Err(Error::AlreadyMaxSize)
    } else {
        let calc = calculation_for(
            raw,
            device_sectors as u32,
            new_fat_size_for(raw, device_sectors as u32) as u32,
        );
        if calc.new_data_clusters < layout::MIN_FAT32_CLUSTERS {
            Err(Error::Calculation(CalculationFault::ClusterCount(calc.new_data_clusters)))
        } else {
            Ok(calc)
        }
    }
}

/// The calculation fails with "already at maximum size" exactly where the
/// device has the sectors of the volume, and with "shrink not supported"
/// exactly where it has fewer.
pub proof fn lemma_size_errors(raw: Seq<u8>, device_sectors: u64)
    ensures
        new_size(raw, device_sectors) == Err::<SizeCalculation, Error>(Error::AlreadyMaxSize)
            <==> device_sectors == layout::total_sectors(raw),
        new_size(raw, device_sectors) == Err::<SizeCalculation, Error>(
            Error::ShrinkNotSupported,
        ) <==> device_sectors < layout::total_sectors(raw),
        new_size(raw, device_sectors).is_ok() ==> {
            &&& layout::total_sectors(raw) < device_sectors <= u32::MAX
            &&& new_size(raw, device_sectors).unwrap().new_total_sectors == device_sectors
            &&& new_size(raw, device_sectors).unwrap().old_total_sectors == layout::total_sectors(
                raw,
            )
            &&& new_size(raw, device_sectors).unwrap().new_data_clusters
                >= layout::MIN_FAT32_CLUSTERS
        },
{
}

/// The formula never gives a FAT that is longer than the volume, nor one
/// of more sectors than 32 bits can count.
pub proof fn lemma_required_fat_size_bounds(
    total_sectors: u32,
    reserved_sectors: u16,
    num_fats: u8,
    sectors_per_cluster: u8,
    bytes_per_sector: u16,
)
    requires
        total_sectors >= reserved_sectors,
        fat_size_divisor(num_fats, sectors_per_cluster, bytes_per_sector) > 0,
    ensures
        0 <= required_fat_size(
            total_sectors,
            reserved_sectors,
            num_fats,
            sectors_per_cluster,
            bytes_per_sector,
        ) <= total_sectors - reserved_sectors,
{
    let a = total_sectors - reserved_sectors;
    let d = fat_size_divisor(num_fats, sectors_per_cluster, bytes_per_sector);
    assert(0 <= (a + d - 1) / d <= a) by (nonlinear_arith)
        requires
            a >= 0,
            d >= 1,
    ;
}

/// The formula never under-sizes: a FAT of the size that it gives holds at
/// least as many entries as the volume has data clusters. The two entries
/// at the start of a FAT, which stand for no cluster, are not counted.
pub proof fn lemma_fat_holds_every_cluster(
    total_sectors: u32,
    reserved_sectors: u16,
    num_fats: u8,
    sectors_per_cluster: u8,
    bytes_per_sector: u16,
)
    requires
        total_sectors >= reserved_sectors,
        sectors_per_cluster >= 1,
        num_fats >= 1,
        fat_size_divisor(num_fats, sectors_per_cluster, bytes_per_sector) > 0,
    ensures
        required_fat_size(
            total_sectors,
            reserved_sectors,
            num_fats,
            sectors_per_cluster,
            bytes_per_sector,
        ) * (bytes_per_sector / 4) >= data_sectors_for(
            total_sectors as int,
            reserved_sectors as int,
            num_fats as int,
            required_fat_size(
                total_sectors,
                reserved_sectors,
                num_fats,
                sectors_per_cluster,
                bytes_per_sector,
            ),
        ) / (sectors_per_cluster as int),
{
    let a = total_sectors - reserved_sectors;
    let entries = (bytes_per_sector / 4) as int;
    let spc = sectors_per_cluster as int;
    let nf = num_fats as int;
    let half = (num_fats / 2) as int;
    let d = entries * spc + half;
    let f = (a + d - 1) / d;
    assert(f * d >= a && f >= 0) by (nonlinear_arith)
        requires
            a >= 0,
            d >= 1,
            f == (a + d - 1) / d,
    ;
    let rest = data_sectors_for(total_sectors as int, reserved_sectors as int, nf, f);
    let clusters = rest / spc;
    assert(clusters * spc <= rest && clusters >= 0) by (nonlinear_arith)
        requires
            rest >= 0,
            spc >= 1,
            clusters == rest / spc,
    ;
    assert(f * entries * spc >= rest) by (nonlinear_arith)
        requires
            f * d >= a,
            d == entries * spc + half,
            0 <= half <= nf,
            f >= 0,
            rest == a - nf * f || rest == 0,
            entries >= 0,
            spc >= 1,
    ;
    assert(f * entries >= clusters) by (nonlinear_arith)
        requires
            f * entries * spc >= rest,
            clusters * spc <= rest,
            spc >= 1,
    ;
}

/// The FAT size for a volume of `total_sectors` sectors, by the formula of
/// the FAT specification for 4-byte entries. The result may be a sector
/// more than strictly needed.
pub fn calculate_fat_size(
    total_sectors: u32,
    reserved_sectors: u16,
    num_fats: u8,
    sectors_per_cluster: u8,
    bytes_per_sector: u16,
) -> (r: Result<u32, Error>)
    requires
        total_sectors >= reserved_sectors,
    ensures
        fat_size_divisor(num_fats, sectors_per_cluster, bytes_per_sector) == 0 ==> r == Err::<
            u32,
            Error,
        >(Error::Calculation(CalculationFault::ZeroDivisor)),
        fat_size_divisor(num_fats, sectors_per_cluster, bytes_per_sector) != 0 ==> r.is_ok()
            && r.unwrap() == required_fat_size(
            total_sectors,
            reserved_sectors,
            num_fats,
            sectors_per_cluster,
            bytes_per_sector,
        ),
{
    let tmp_val1: u64 = total_sectors as u64 - reserved_sectors as u64;
    let entries_per_sector: u64 = bytes_per_sector as u64 / 4;
    assert(entries_per_sector * sectors_per_cluster <= 0x3FFF * 0xFF) by (nonlinear_arith)
        requires
            entries_per_sector <= 0x3FFF,
            sectors_per_cluster <= 0xFF,
    ;
    let tmp_val2: u64 = entries_per_sector * (sectors_per_cluster as u64) + (num_fats as u64 / 2);
    if tmp_val2 == 0 {
        return Err(Error::Calculation(CalculationFault::ZeroDivisor));
    }
    proof {
        lemma_required_fat_size_bounds(
            total_sectors,
            reserved_sectors,
            num_fats,
            sectors_per_cluster,
            bytes_per_sector,
        );
    }
    let fat_size: u64 = (tmp_val1 + tmp_val2 - 1) / tmp_val2;
    Ok(fat_size as u32)
}

/// On a FAT32 volume the grown FATs and the reserved area fit into any
/// larger sector count, so the new data area is what the device leaves
/// after them.
pub proof fn lemma_new_layout_fits(raw: Seq<u8>, new_total_sectors: u32)
    requires
        is_fat32_geometry(raw),
        new_total_sectors >= layout::total_sectors(raw),
    ensures
        fat_size_divisor(
            layout::num_fats(raw),
            layout::sectors_per_cluster(raw),
            layout::bytes_per_sector(raw),
        ) >= 128,
        0 <= new_fat_size_for(raw, new_total_sectors) <= u32::MAX,
        layout::num_fats(raw) * new_fat_size_for(raw, new_total_sectors) <= new_total_sectors
            - layout::reserved_sectors(raw),
{
    lemma_fat32_geometry_defined(raw);
    let bps = layout::bytes_per_sector(raw) as int;
    let spc = layout::sectors_per_cluster(raw) as int;
    let nf = layout::num_fats(raw) as int;
    let a = new_total_sectors - layout::reserved_sectors(raw);
    let d = fat_size_divisor(
        layout::num_fats(raw),
        layout::sectors_per_cluster(raw),
        layout::bytes_per_sector(raw),
    );
    assert(bps / 4 >= 128);
    assert((bps / 4) * spc >= 128) by (nonlinear_arith)
        requires
            bps / 4 >= 128,
            spc >= 1,
    ;
    assert(layout::data_clusters(raw) * spc <= layout::data_sectors(raw)) by (nonlinear_arith)
        requires
            spc >= 1,
            layout::data_sectors(raw) >= 0,
            layout::data_clusters(raw) == layout::data_sectors(raw) / spc,
    ;
    assert(a >= 65525);
    let f = (a + d - 1) / d;
    assert(0 <= f <= a && nf * f <= a) by (nonlinear_arith)
        requires
            a >= 65525,
            d >= 128,
            1 <= nf <= 2,
            f == (a + d - 1) / d,
    ;
    assert(new_fat_size_for(raw, new_total_sectors) == f);
}

/// Calculates the sizes of the volume after growing it to the whole
/// device of `device_sectors` sectors.
pub fn calculate_new_size(boot: &BootSector, device_sectors: u64) -> (r: Result<
    SizeCalculation,
    Error,
>)
    requires
        boot.wf(),
        is_fat32_geometry(boot@),
    ensures
        r == new_size(boot@, device_sectors),
        r == Err::<SizeCalculation, Error>(Error::AlreadyMaxSize) <==> device_sectors
            == layout::total_sectors(boot@),
        r == Err::<SizeCalculation, Error>(Error::ShrinkNotSupported) <==> device_sectors
            < layout::total_sectors(boot@),
        r.is_ok() ==> r.unwrap().new_total_sectors == device_sectors && r.unwrap().old_total_sectors
            == layout::total_sectors(boot@) && r.unwrap().new_data_clusters
            >= layout::MIN_FAT32_CLUSTERS,
{
    proof {
        lemma_size_errors(boot@, device_sectors);
    }
    proof {
        lemma_fat32_geometry_defined(boot@);
    }
    let old_total_sectors: u32 = boot.total_sectors();
    let old_fat_size: u32 = boot.fat_size();
    let old_data_clusters: u32 = boot.data_clusters();
    if device_sectors > u32::MAX as u64 {
        return Err(Error::Calculation(CalculationFault::DeviceTooLarge(device_sectors)));
    }
    let new_total_sectors: u32 = device_sectors as u32;
    if new_total_sectors < old_total_sectors {
        return Err(Error::ShrinkNotSupported);
    }
    if new_total_sectors == old_total_sectors {
        return Err(Error::AlreadyMaxSize);
    }
    proof {
        lemma_new_layout_fits(boot@, new_total_sectors);
    }
    let num_fats: u8 = boot.num_fats();
    let spc: u8 = boot.sectors_per_cluster();
    let fat_size_result = calculate_fat_size(
        new_total_sectors,
        boot.reserved_sectors(),
        num_fats,
        spc,
        boot.bytes_per_sector(),
    );
    let new_fat_size: u32 = match fat_size_result {
        Ok(size) => size,
        Err(e) => {
            return Err(e);
        },
    };
    let fat_sectors: u32 = num_fats as u32 * new_fat_size;
    let new_data_sectors: u32 = new_total_sectors - boot.reserved_sectors() as u32 - fat_sectors;
    let new_data_clusters: u32 = new_data_sectors / spc as u32;
    if new_data_clusters < layout::MIN_FAT32_CLUSTERS {
        return Err(Error::Calculation(CalculationFault::ClusterCount(new_data_clusters)));
    }
    let fat_needs_growth: bool = new_fat_size > old_fat_size;
    let fat_growth_sectors: u32 = new_fat_size.saturating_sub(old_fat_size);
    assert(fat_growth_sectors * num_fats <= num_fats * new_fat_size) by (nonlinear_arith)
        requires
            fat_growth_sectors <= new_fat_size,
            num_fats >= 0,
    ;
    let total_growth: u32 = fat_growth_sectors * num_fats as u32;
    assert((total_growth + spc - 1) / (spc as int) <= total_growth) by (nonlinear_arith)
        requires
            total_growth >= 0,
            spc >= 1,
    ;
    let affected: u32 = ((total_growth as u64 + spc as u64 - 1) / spc as u64) as u32;
    let last_affected_cluster: u32 = 1 + affected;
    let new_free_clusters: u32 = new_data_clusters.saturating_sub(old_data_clusters);
    Ok(
        SizeCalculation {
            old_total_sectors,
            new_total_sectors,
            old_fat_size,
            new_fat_size,
            new_data_clusters,
            new_free_clusters,
            fat_needs_growth,
            fat_growth_sectors,
            first_affected_cluster: 2,
            last_affected_cluster,
        },
    )
}

} // verus!
