//! The IDE controller in compatibility mode: which ports its registers lie
//! at, what to write to them for a transfer, and what its answers mean.

use vstd::prelude::*;
use crate::kernel::port::PortWrite;

verus! {

/// One of the two channels of the controller.
#[derive(Clone, Copy, PartialEq, Eq, Structural, Debug)]
pub enum ATAChannel {
    Primary,
    Secondary,
}

/// What kind of commands a drive takes.
#[derive(Clone, Copy, PartialEq, Eq, Structural, Debug)]
pub enum IDEInterfaceType {
    Ata,
    Atapi,
}

/// One of the two drives of a channel.
#[derive(Clone, Copy, PartialEq, Eq, Structural, Debug)]
pub enum DriveType {
    Master,
    Slave,
}

/// A drive, as its answer to the identify command describes it.
#[derive(Debug, Clone, Copy)]
pub struct IDEDevice {
    pub channel: ATAChannel,
    pub drive: DriveType,
    pub interface_type: IDEInterfaceType,
    pub signature: u16,
    pub capabilities: u16,
    pub command_sets: u32,
    /// The size in sectors.
    pub size: u32,
    /// The model, 40 characters and a zero.
    pub model: [u8; 41],
    pub enabled_48bit: bool,
}

/// What went wrong with a command, or `NoError`.
#[derive(Clone, Copy, PartialEq, Eq, Structural, Debug)]
pub enum AtaError {
    NoError,
    DeviceFault,
    NoAddressMarkFound,
    NoMediaOrMediaError,
    CommandAborted,
    IdMarkNotFound,
    UncorrectableDataError,
    BadSectors,
    ReadsNothing,
    WriteProtected,
    OutOfRange,
}

/// A device that stores sectors of 256 words.
pub trait BlockDevice {
    /// Reads `num` sectors from the sector `lba` on.
    fn read(&self, lba: u32, num: u8) -> Result<Vec<[u16; 256]>, AtaError>;

    /// Writes the sectors of `data` from the sector `lba` on.
    fn write(&self, lba: u32, data: Vec<[u16; 256]>) -> Result<(), AtaError>;

    /// The size of the device in sectors.
    fn size(&self) -> u32;

    /// The model of the device.
    fn model(&self) -> [u8; 41];

    /// The channel of the device.
    fn channel(&self) -> ATAChannel;

    /// Which drive of its channel the device is.
    fn drive_type(&self) -> DriveType;
}

/// The word of the identify answer that tells the kind of device.
pub const IDENT_DEVICE_TYPE: usize = 0;

/// The first word of the model in the identify answer.
pub const IDENT_MODEL: usize = 27;

/// The word of the identify answer that holds the capabilities.
pub const IDENT_CAPABILITIES: usize = 49;

/// The first of the two words that hold the size for 28-bit addressing.
pub const IDENT_MAX_LBA: usize = 60;

/// The first of the two words that hold the command sets.
pub const IDENT_COMMAND_SETS: usize = 82;

/// The first of the words that hold the size for 48-bit addressing.
pub const IDENT_MAX_LBA_EXT: usize = 100;

/// A register of a channel, by the number the driver gives it.
#[derive(Clone, Copy, PartialEq, Eq, Structural, Debug)]
pub enum AtaRegister {
    Data,
    ErrorAndFeatures,
    SecCount0,
    Lba0,
    Lba1,
    Lba2,
    HddEvSel,
    CommandAndStatus,
    SecCount1,
    Lba3,
    Lba4,
    Lba5,
    ControlAndAltStatus,
    DevAddress,
}

impl AtaRegister {
    /// The number of the register.
    pub open spec fn number(self) -> u8 {
        match self {
            AtaRegister::Data => 0x00,
            AtaRegister::ErrorAndFeatures => 0x01,
            AtaRegister::SecCount0 => 0x02,
            AtaRegister::Lba0 => 0x03,
            AtaRegister::Lba1 => 0x04,
            AtaRegister::Lba2 => 0x05,
            AtaRegister::HddEvSel => 0x06,
            AtaRegister::CommandAndStatus => 0x07,
            AtaRegister::SecCount1 => 0x08,
            AtaRegister::Lba3 => 0x09,
            AtaRegister::Lba4 => 0x0A,
            AtaRegister::Lba5 => 0x0B,
            AtaRegister::ControlAndAltStatus => 0x0C,
            AtaRegister::DevAddress => 0x0D,
        }
    }

    /// The number of the register.
    pub fn as_u8(self) -> (n: u8)
        ensures
            n == self.number(),
    {
        match self {
            AtaRegister::Data => 0x00,
            AtaRegister::ErrorAndFeatures => 0x01,
            AtaRegister::SecCount0 => 0x02,
            AtaRegister::Lba0 => 0x03,
            AtaRegister::Lba1 => 0x04,
            AtaRegister::Lba2 => 0x05,
            AtaRegister::HddEvSel => 0x06,
            AtaRegister::CommandAndStatus => 0x07,
            AtaRegister::SecCount1 => 0x08,
            AtaRegister::Lba3 => 0x09,
            AtaRegister::Lba4 => 0x0A,
            AtaRegister::Lba5 => 0x0B,
            AtaRegister::ControlAndAltStatus => 0x0C,
            AtaRegister::DevAddress => 0x0D,
        }
    }
}

/// A command of the controller.
#[derive(Clone, Copy, PartialEq, Eq, Structural, Debug)]
pub enum AtaCommand {
    ReadPio,
    ReadPioExt,
    ReadDma,
    ReadDmaExt,
    WritePio,
    WritePioExt,
    WriteDma,
    WriteDmaExt,
    CacheFlush,
    CacheFlushExt,
    Packet,
    IdentifyPacket,
    Identify,
}

impl AtaCommand {
    /// The byte that stands for the command.
    pub open spec fn code(self) -> u8 {
        match self {
            AtaCommand::ReadPio => 0x20,
            AtaCommand::ReadPioExt => 0x24,
            AtaCommand::ReadDma => 0xC8,
            AtaCommand::ReadDmaExt => 0x25,
            AtaCommand::WritePio => 0x30,
            AtaCommand::WritePioExt => 0x34,
            AtaCommand::WriteDma => 0xCA,
            AtaCommand::WriteDmaExt => 0x35,
            AtaCommand::CacheFlush => 0xE7,
            AtaCommand::CacheFlushExt => 0xEA,
            AtaCommand::Packet => 0xA0,
            AtaCommand::IdentifyPacket => 0xA1,
            AtaCommand::Identify => 0xEC,
        }
    }

    /// The byte that stands for the command.
    pub fn as_u8(self) -> (code: u8)
        ensures
            code == self.code(),
    {
        match self {
            AtaCommand::ReadPio => 0x20,
            AtaCommand::ReadPioExt => 0x24,
            AtaCommand::ReadDma => 0xC8,
            AtaCommand::ReadDmaExt => 0x25,
            AtaCommand::WritePio => 0x30,
            AtaCommand::WritePioExt => 0x34,
            AtaCommand::WriteDma => 0xCA,
            AtaCommand::WriteDmaExt => 0x35,
            AtaCommand::CacheFlush => 0xE7,
            AtaCommand::CacheFlushExt => 0xEA,
            AtaCommand::Packet => 0xA0,
            AtaCommand::IdentifyPacket => 0xA1,
            AtaCommand::Identify => 0xEC,
        }
    }
}

/// Status: the drive is busy.
pub const STATUS_BUSY: u8 = 0x80;

/// Status: the drive is ready.
pub const STATUS_DRIVE_READY: u8 = 0x40;

/// Status: a write failed.
pub const STATUS_WRITE_FAULT: u8 = 0x20;

/// Status: the seek is complete.
pub const STATUS_SEEK_COMPLETE: u8 = 0x10;

/// Status: the drive has data or wants data.
pub const STATUS_DATA_REQUEST: u8 = 0x08;

/// Status: the data was corrected.
pub const STATUS_CORRECTED: u8 = 0x04;

/// Status: the index mark.
pub const STATUS_INDEX: u8 = 0x02;

/// Status: the command failed.
pub const STATUS_ERROR: u8 = 0x01;

/// The ports of a channel, and the bit that keeps it from interrupting.
#[derive(Clone, Copy, PartialEq, Eq, Structural, Debug)]
pub struct IDEChannelRegister {
    pub io_base: u16,
    pub ctrl: u16,
    pub bm_ide: u16,
    pub no_interrupt: u8,
}

/// The ports of a channel in compatibility mode.
pub fn compatibility_channel(channel: ATAChannel) -> (regs: IDEChannelRegister)
    ensures
        regs == (match channel {
            ATAChannel::Primary => IDEChannelRegister {
                io_base: 0x1F0,
                ctrl: 0x3F4,
                bm_ide: 0,
                no_interrupt: 0,
            },
            ATAChannel::Secondary => IDEChannelRegister {
                io_base: 0x170,
                ctrl: 0x374,
                bm_ide: 8,
                no_interrupt: 0,
            },
        }),
{
    match channel {
        ATAChannel::Primary => IDEChannelRegister { io_base: 0x1F0, ctrl: 0x3F4, bm_ide: 0, no_interrupt: 0 },
        ATAChannel::Secondary => IDEChannelRegister {
            io_base: 0x170,
            ctrl: 0x374,
            bm_ide: 8,
            no_interrupt: 0,
        },
    }
}

/// The port of a register of a channel: the registers 0 to 7 lie from the
/// channel's base on, the registers 8 to 11 share the ports of 2 to 5, and
/// the registers 12 and 13 lie at the control base plus 2 and 3.
pub open spec fn register_port(regs: IDEChannelRegister, reg: AtaRegister) -> int {
    if reg.number() < 0x08 {
        regs.io_base + reg.number()
    } else if reg.number() < 0x0C {
        regs.io_base + reg.number() - 0x06
    } else {
        regs.ctrl + reg.number() - 0x0A
    }
}

/// The register is one of those that share a port and are reached with the
/// high-order bit of the control register set.
pub open spec fn is_high_order(reg: AtaRegister) -> bool {
    0x07 < reg.number() < 0x0C
}

/// The writes that put `data` into the register `reg` of a channel. For a
/// register that shares its port the control register is written before,
/// with the high-order bit set, and after, without it.
pub open spec fn register_writes(regs: IDEChannelRegister, reg: AtaRegister, data: u8) -> Seq<PortWrite> {
    let write = PortWrite { port: register_port(regs, reg) as u16, value: data };
    if is_high_order(reg) {
        seq![
            PortWrite {
                port: register_port(regs, AtaRegister::ControlAndAltStatus) as u16,
                value: 0x80 | regs.no_interrupt,
            },
            write,
            PortWrite {
                port: register_port(regs, AtaRegister::ControlAndAltStatus) as u16,
                value: regs.no_interrupt,
            },
        ]
    } else {
        seq![write]
    }
}

/// The ports of the channel's registers all lie in the range of port
/// numbers.
pub open spec fn channel_fits(regs: IDEChannelRegister) -> bool {
    regs.io_base <= 0xFFFF - 8 && regs.ctrl <= 0xFFFF - 4
}

/// The port of a register of a channel.
pub fn ide_port(regs: &IDEChannelRegister, reg: AtaRegister) -> (port: u16)
    requires
        channel_fits(*regs),
    ensures
        port == register_port(*regs, reg),
{
    let n = reg.as_u8() as u16;
    if n < 0x08 {
        regs.io_base + n
    } else if n < 0x0C {
        regs.io_base + (n - 0x06)
    } else {
        regs.ctrl + (n - 0x0A)
    }
}

/// The writes that put `data` into the register `reg` of a channel.
pub fn ide_write(regs: &IDEChannelRegister, reg: AtaRegister, data: u8) -> (writes: Vec<PortWrite>)
    requires
        channel_fits(*regs),
    ensures
        writes@ == register_writes(*regs, reg, data),
{
    let mut writes: Vec<PortWrite> = Vec::new();
    let n = reg.as_u8();
    let shared = n > 0x07 && n < 0x0C;
    if shared {
        writes.push(
            PortWrite {
                port: ide_port(regs, AtaRegister::ControlAndAltStatus),
                value: 0x80 | regs.no_interrupt,
            },
        );
    }
    writes.push(PortWrite { port: ide_port(regs, reg), value: data });
    if shared {
        writes.push(
            PortWrite { port: ide_port(regs, AtaRegister::ControlAndAltStatus), value: regs.no_interrupt },
        );
    }
    assert(writes@ =~= register_writes(*regs, reg, data));
    writes
}

/// The number that two words spell, the low word first.
pub fn construct_u32(input: [u16; 2]) -> (value: u32)
    ensures
        value == input@[0] + input@[1] * 0x1_0000,
{
    input[1] as u32 * 0x1_0000 + input[0] as u32
}

/// The word at `offset` of the identify answer.
pub fn get_u16_from_buffer(buffer: &[u16], offset: usize) -> (value: u16)
    requires
        offset < buffer@.len(),
    ensures
        value == buffer@[offset as int],
{
    buffer[offset]
}

/// The number that the two words from `offset` on spell.
pub fn get_u32_from_buffer(buffer: &[u16], offset: usize) -> (value: u32)
    requires
        offset + 2 <= buffer@.len(),
    ensures
        value == buffer@[offset as int] + buffer@[offset + 1] * 0x1_0000,
{
    // the length, as a machine word, bounds the indices below
    let _len = buffer.len();
    construct_u32([buffer[offset], buffer[offset + 1]])
}

/// Character `i` of the model in an identify answer: the high byte of a
/// word comes first.
pub open spec fn model_byte(buffer: Seq<u16>, i: int) -> u8 {
    let word = buffer[IDENT_MODEL + i / 2];
    if i % 2 == 0 {
        (word / 256) as u8
    } else {
        (word % 256) as u8
    }
}

/// Tells whether the command sets of a drive include 48-bit addressing.
pub fn supports_48bit(command_sets: u32) -> (yes: bool)
    ensures
        yes == (command_sets & 0x0400_0000 != 0),
{
    command_sets & 0x0400_0000 != 0
}

impl IDEDevice {
    /// The kind of commands the drive takes.
    pub open spec fn interface(&self) -> IDEInterfaceType {
        self.interface_type
    }

    /// The word of the identify answer that tells the kind of device.
    pub open spec fn device_signature(&self) -> u16 {
        self.signature
    }

    /// The capabilities of the drive.
    pub open spec fn device_capabilities(&self) -> u16 {
        self.capabilities
    }

    /// The command sets of the drive.
    pub open spec fn device_command_sets(&self) -> u32 {
        self.command_sets
    }

    /// Whether the drive takes 48-bit addresses.
    pub open spec fn lba48(&self) -> bool {
        self.enabled_48bit
    }

    /// The drive that the identify answer in `buffer` describes: its size
    /// from the words for 48-bit addressing where the command sets include
    /// it, and from the words for 28-bit addressing otherwise; its model,
    /// 40 characters and a zero.
    pub fn from_identify(channel: ATAChannel, drive: DriveType, buffer: &[u16]) -> (device: IDEDevice)
        requires
            buffer@.len() >= 256,
        ensures
            device.channel == channel,
            device.drive == drive,
            device.interface() == IDEInterfaceType::Ata,
            device.device_signature() == buffer@[IDENT_DEVICE_TYPE as int],
            device.device_capabilities() == buffer@[IDENT_CAPABILITIES as int],
            device.device_command_sets() == buffer@[IDENT_COMMAND_SETS as int] + buffer@[
                IDENT_COMMAND_SETS + 1
            ] * 0x1_0000,
            device.lba48() == (device.device_command_sets() & 0x0400_0000 != 0),
            device.size == (if device.lba48() {
                buffer@[IDENT_MAX_LBA_EXT as int] + buffer@[IDENT_MAX_LBA_EXT + 1] * 0x1_0000
            } else {
                buffer@[IDENT_MAX_LBA as int] + buffer@[IDENT_MAX_LBA + 1] * 0x1_0000
            }),
            device.model@[40] == 0,
            forall|i: int| 0 <= i < 40 ==> #[trigger] device.model@[i] == model_byte(buffer@, i),
    {
        let command_sets = get_u32_from_buffer(buffer, IDENT_COMMAND_SETS);
        let enabled_48bit = supports_48bit(command_sets);
        let size = if enabled_48bit {
            get_u32_from_buffer(buffer, IDENT_MAX_LBA_EXT)
        } else {
            get_u32_from_buffer(buffer, IDENT_MAX_LBA)
        };
        let mut model: [u8; 41] = [0;41];
        let mut i: usize = 0;
        while i < 40
            invariant
                i <= 40,
                i % 2 == 0,
                buffer@.len() >= 256,
                model@[40] == 0,
                forall|k: int| 0 <= k < i ==> #[trigger] model@[k] == model_byte(buffer@, k),
            decreases 40 - i,
        {
            let word = buffer[IDENT_MODEL + i / 2];
            model[i] = (word / 256) as u8;
            model[i + 1] = (word % 256) as u8;
            i = i + 2;
        }
        IDEDevice {
            channel,
            drive,
            interface_type: IDEInterfaceType::Ata,
            signature: get_u16_from_buffer(buffer, IDENT_DEVICE_TYPE),
            capabilities: get_u16_from_buffer(buffer, IDENT_CAPABILITIES),
            command_sets,
            size,
            model,
            enabled_48bit,
        }
    }

    /// Tells whether the `num` sectors from `lba` on lie on the drive.
    pub fn check_range(&self, lba: u32, num: u32) -> (r: Result<(), AtaError>)
        ensures
            r is Ok <==> lba + num <= self.size,
            r is Err ==> r->Err_0 == AtaError::OutOfRange,
    {
        if lba as u64 + num as u64 > self.size as u64 {
            Err(AtaError::OutOfRange)
        } else {
            Ok(())
        }
    }

    /// The size of the drive in sectors.
    pub fn size(&self) -> (size: u32)
        ensures
            size == self.size,
    {
        self.size
    }

    /// The model of the drive.
    pub fn model(&self) -> (model: [u8; 41])
        ensures
            model == self.model,
    {
        self.model
    }

    /// The channel of the drive.
    pub fn channel(&self) -> (channel: ATAChannel)
        ensures
            channel == self.channel,
    {
        self.channel
    }

    /// Which drive of its channel this is.
    pub fn drive_type(&self) -> (drive: DriveType)
        ensures
            drive == self.drive,
    {
        self.drive
    }
}

/// How the sector of a transfer is addressed.
#[derive(Clone, Copy, PartialEq, Eq, Structural, Debug)]
pub enum LbaMode {
    Lba48,
    Lba28,
    Chs,
}

/// The way to address the sector `lba` on a drive with the capabilities
/// `capabilities`: 48 bits from sector 0x10000000 on, 28 bits below it where
/// the drive knows linear addresses, cylinders and heads otherwise.
pub open spec fn lba_mode_for(lba: u32, capabilities: u16) -> LbaMode {
    if lba >= 0x10000000 {
        LbaMode::Lba48
    } else if capabilities & 0x200 != 0 {
        LbaMode::Lba28
    } else {
        LbaMode::Chs
    }
}

/// The command for a transfer.
pub open spec fn transfer_command(mode: LbaMode, dma: bool, is_write: bool) -> AtaCommand {
    if mode == LbaMode::Lba48 {
        if dma {
            if is_write {
                AtaCommand::WriteDmaExt
            } else {
                AtaCommand::ReadDmaExt
            }
        } else if is_write {
            AtaCommand::WritePioExt
        } else {
            AtaCommand::ReadPioExt
        }
    } else if dma {
        if is_write {
            AtaCommand::WriteDma
        } else {
            AtaCommand::ReadDma
        }
    } else if is_write {
        AtaCommand::WritePio
    } else {
        AtaCommand::ReadPio
    }
}

/// What to put into the registers for a transfer, register by register, in
/// the order of writing: the drive and the head, for 48 bits the high
/// sector count and address bytes, then the sector count, the low address
/// bytes, and the command.
pub open spec fn transfer_registers(
    lba: u32,
    numsects: u8,
    slave: bool,
    mode: LbaMode,
    command: AtaCommand,
) -> Seq<(AtaRegister, u8)> {
    let slavebit: u8 = if slave {
        0x10
    } else {
        0
    };
    let head: u8 = if mode == LbaMode::Lba28 {
        ((lba / 0x100_0000) % 16) as u8
    } else {
        0
    };
    let select = seq![(AtaRegister::HddEvSel, (0xE0 + slavebit + head) as u8)];
    let high = if mode == LbaMode::Lba48 {
        seq![
            (AtaRegister::SecCount1, 0u8),
            (AtaRegister::Lba3, ((lba / 0x100_0000) % 256) as u8),
            (AtaRegister::Lba4, 0u8),
            (AtaRegister::Lba5, 0u8),
        ]
    } else {
        Seq::empty()
    };
    select + high + seq![
        (AtaRegister::SecCount0, numsects),
        (AtaRegister::Lba0, (lba % 256) as u8),
        (AtaRegister::Lba1, ((lba / 0x100) % 256) as u8),
        (AtaRegister::Lba2, ((lba / 0x1_0000) % 256) as u8),
        (AtaRegister::CommandAndStatus, command.code()),
    ]
}

/// What a transfer needs: the way of addressing, and what to put into the
/// registers once the drive is no longer busy.
pub struct IoPlan {
    pub lba_mode: LbaMode,
    pub registers: Vec<(AtaRegister, u8)>,
}

impl IDEDevice {
    /// Plans the transfer of `numsects` sectors from the sector `lba` on.
    /// `None` for a drive that would have to be addressed by cylinders and
    /// heads.
    pub fn io_prepare(&self, lba: u32, numsects: u8, dma: bool, is_write: bool) -> (plan: Option<IoPlan>)
        ensures
            plan is Some <==> lba_mode_for(lba, self.device_capabilities()) != LbaMode::Chs,
            plan is Some ==> plan->Some_0.lba_mode == lba_mode_for(lba, self.device_capabilities())
                && plan->Some_0.registers@ == transfer_registers(
                lba,
                numsects,
                self.drive == DriveType::Slave,
                plan->Some_0.lba_mode,
                transfer_command(plan->Some_0.lba_mode, dma, is_write),
            ),
    {
        let lba_mode = if lba >= 0x10000000 {
            LbaMode::Lba48
        } else if self.capabilities & 0x200 != 0 {
            LbaMode::Lba28
        } else {
            return None;
        };
        let slavebit: u8 = match self.drive {
            DriveType::Master => 0,
            DriveType::Slave => 0x10,
        };
        let head: u8 = match lba_mode {
            LbaMode::Lba28 => ((lba / 0x100_0000) % 16) as u8,
            _ => 0,
        };
        let command = match lba_mode {
            LbaMode::Lba48 => if dma {
                if is_write {
                    AtaCommand::WriteDmaExt
                } else {
                    AtaCommand::ReadDmaExt
                }
            } else if is_write {
                AtaCommand::WritePioExt
            } else {
                AtaCommand::ReadPioExt
            },
            _ => if dma {
                if is_write {
                    AtaCommand::WriteDma
                } else {
                    AtaCommand::ReadDma
                }
            } else if is_write {
                AtaCommand::WritePio
            } else {
                AtaCommand::ReadPio
            },
        };
        let mut registers: Vec<(AtaRegister, u8)> = Vec::new();
        registers.push((AtaRegister::HddEvSel, 0xE0 + slavebit + head));
        match lba_mode {
            LbaMode::Lba48 => {
                registers.push((AtaRegister::SecCount1, 0));
                registers.push((AtaRegister::Lba3, ((lba / 0x100_0000) % 256) as u8));
                registers.push((AtaRegister::Lba4, 0));
                registers.push((AtaRegister::Lba5, 0));
            },
            _ => {},
        }
        registers.push((AtaRegister::SecCount0, numsects));
        registers.push((AtaRegister::Lba0, (lba % 256) as u8));
        registers.push((AtaRegister::Lba1, ((lba / 0x100) % 256) as u8));
        registers.push((AtaRegister::Lba2, ((lba / 0x1_0000) % 256) as u8));
        registers.push((AtaRegister::CommandAndStatus, command.as_u8()));
        assert(registers@ =~= transfer_registers(
            lba,
            numsects,
            self.drive == DriveType::Slave,
            lba_mode,
            command,
        ));
        Some(IoPlan { lba_mode, registers })
    }
}

/// Tells from the status whether the drive is busy.
pub fn is_busy(status: u8) -> (busy: bool)
    ensures
        busy == (status & STATUS_BUSY != 0),
{
    status & STATUS_BUSY != 0
}

/// Tells from the status after the identify command whether the drive has
/// answered: `Some(true)` for an ATA drive with its answer ready,
/// `Some(false)` for a drive that is no ATA drive, `None` while the drive
/// has not made up its mind.
pub fn identify_answer(status: u8) -> (answer: Option<bool>)
    ensures
        answer == (if status & STATUS_ERROR != 0 {
            Some(false)
        } else if status & STATUS_BUSY == 0 && status & STATUS_DATA_REQUEST != 0 {
            Some(true)
        } else {
            None
        }),
{
    if status & STATUS_ERROR != 0 {
        Some(false)
    } else if status & STATUS_BUSY == 0 && status & STATUS_DATA_REQUEST != 0 {
        Some(true)
    } else {
        None
    }
}

/// What the error register tells: the lowest bit that is set counts.
pub open spec fn error_of(err: u8) -> AtaError {
    if err & 0x01 != 0 {
        AtaError::NoAddressMarkFound
    } else if err & 0x02 != 0 {
        AtaError::NoMediaOrMediaError
    } else if err & 0x04 != 0 {
        AtaError::CommandAborted
    } else if err & 0x08 != 0 {
        AtaError::NoMediaOrMediaError
    } else if err & 0x10 != 0 {
        AtaError::IdMarkNotFound
    } else if err & 0x20 != 0 {
        AtaError::NoMediaOrMediaError
    } else if err & 0x40 != 0 {
        AtaError::UncorrectableDataError
    } else if err & 0x80 != 0 {
        AtaError::BadSectors
    } else {
        AtaError::DeviceFault
    }
}

/// What the status of a drive that is no longer busy tells, with the error
/// register `err` read where the status shows an error: the error of the
/// error register, a device fault for a write fault, and no error
/// otherwise. Without `advanced_check` nothing is looked at.
pub open spec fn polling_result(status: u8, err: u8, advanced_check: bool) -> AtaError {
    if !advanced_check {
        AtaError::NoError
    } else if status & STATUS_ERROR != 0 {
        error_of(err)
    } else if status & STATUS_WRITE_FAULT != 0 {
        AtaError::DeviceFault
    } else {
        AtaError::NoError
    }
}

/// Judges the status of a drive that is no longer busy: see `polling_result`.
pub fn ide_polling(status: u8, err: u8, advanced_check: bool) -> (error: AtaError)
    ensures
        error == polling_result(status, err, advanced_check),
{
    if !advanced_check {
        return AtaError::NoError;
    }
    if status & STATUS_ERROR != 0 {
        if err & 0x01 != 0 {
            return AtaError::NoAddressMarkFound;
        }
        if err & 0x02 != 0 {
            return AtaError::NoMediaOrMediaError;
        }
        if err & 0x04 != 0 {
            return AtaError::CommandAborted;
        }
        if err & 0x08 != 0 {
            return AtaError::NoMediaOrMediaError;
        }
        if err & 0x10 != 0 {
            return AtaError::IdMarkNotFound;
        }
        if err & 0x20 != 0 {
            return AtaError::NoMediaOrMediaError;
        }
        if err & 0x40 != 0 {
            return AtaError::UncorrectableDataError;
        }
        if err & 0x80 != 0 {
            return AtaError::BadSectors;
        }
        return AtaError::DeviceFault;
    }
    if status & STATUS_WRITE_FAULT != 0 {
        return AtaError::DeviceFault;
    }
    AtaError::NoError
}

/// The byte for the drive-select register that selects a drive before the
/// identify command.
pub fn identify_select(drive: DriveType) -> (value: u8)
    ensures
        value == (match drive {
            DriveType::Master => 0xA0u8,
            DriveType::Slave => 0xB0u8,
        }),
{
    match drive {
        DriveType::Master => 0xA0,
        DriveType::Slave => 0xB0,
    }
}

} // verus!
