//! The camera controller of the IndyCam: nine registers behind an I2C bus.
//!
//! The device stores what is written to it and takes no part in the image. Its bus
//! address is 0xAE to write and 0xAF to read; the byte behind the address is the
//! subaddress of the first register, which moves on by one with each data byte.
use vstd::prelude::*;

pub mod reg;

verus! {

/// The bus address that starts a write.
pub const I2C_WRITE_ADDR: u8 = 0xAE;

/// The bus address that starts a read.
pub const I2C_READ_ADDR: u8 = 0xAF;

/// Where a transfer stands.
#[derive(Clone, Copy, Debug, PartialEq, Eq, Structural)]
pub enum I2cState {
    Idle,
    SubaddrWrite,
    SubaddrRead,
    DataWrite,
    DataRead,
}

/// The camera controller.
pub struct Cdmc {
    pub regs: [u8; 9],
    pub subaddr: u8,
    pub state: I2cState,
}

/// What the camera controller holds.
pub struct CdmcModel {
    pub regs: Seq<u8>,
    pub subaddr: u8,
    pub state: I2cState,
}

impl View for Cdmc {
    type V = CdmcModel;

    open spec fn view(&self) -> CdmcModel {
        CdmcModel { regs: self.regs@, subaddr: self.subaddr, state: self.state }
    }
}

/// The subaddress behind `subaddr`, back to the first register behind the last.
/// From one outside the registers it goes on within them.
pub open spec fn next_subaddr(subaddr: u8) -> u8 {
    ((subaddr + 1) % 256 % (reg::COUNT as int)) as u8
}

impl CdmcModel {
    /// A controller as it comes up: every register zero but the version.
    pub open spec fn powered_on() -> CdmcModel {
        CdmcModel {
            regs: Seq::new(
                reg::COUNT as nat,
                |i: int|
                    if i == reg::VERSION {
                        reg::VERSION_VAL
                    } else {
                        0u8
                    },
            ),
            subaddr: 0,
            state: I2cState::Idle,
        }
    }

    /// Nine registers, of which the first holds the version.
    pub open spec fn well_formed(self) -> bool {
        self.regs.len() == reg::COUNT && self.regs[reg::VERSION as int] == reg::VERSION_VAL
    }

    /// The registers after a data byte: the one at the subaddress takes it, if there
    /// is one and it is not the version.
    pub open spec fn stored(self, data: u8) -> Seq<u8> {
        if self.subaddr < reg::COUNT && self.subaddr != reg::VERSION {
            self.regs.update(self.subaddr as int, data)
        } else {
            self.regs
        }
    }

    /// The controller after a byte was written to the bus.
    pub open spec fn written(self, data: u8) -> CdmcModel {
        match self.state {
            I2cState::Idle => if data == I2C_WRITE_ADDR {
                CdmcModel { state: I2cState::SubaddrWrite, ..self }
            } else if data == I2C_READ_ADDR {
                CdmcModel { state: I2cState::SubaddrRead, ..self }
            } else {
                self
            },
            I2cState::SubaddrWrite => CdmcModel { subaddr: data, state: I2cState::DataWrite, ..self },
            I2cState::SubaddrRead => CdmcModel { subaddr: data, state: I2cState::DataRead, ..self },
            I2cState::DataWrite => CdmcModel {
                regs: self.stored(data),
                subaddr: next_subaddr(self.subaddr),
                ..self
            },
            I2cState::DataRead => CdmcModel { state: I2cState::Idle, ..self },
        }
    }

    /// The byte that a read gives: that of the register at the subaddress, and zero
    /// where there is none or no read is on.
    pub open spec fn read_value(self) -> u8 {
        if self.state == I2cState::DataRead && self.subaddr < reg::COUNT {
            self.regs[self.subaddr as int]
        } else {
            0
        }
    }

    /// The controller after a byte was read from the bus.
    pub open spec fn after_read(self) -> CdmcModel {
        if self.state == I2cState::DataRead {
            CdmcModel { subaddr: next_subaddr(self.subaddr), ..self }
        } else {
            CdmcModel { state: I2cState::Idle, ..self }
        }
    }

    /// The controller after the bus was released.
    pub open spec fn stopped(self) -> CdmcModel {
        CdmcModel { state: I2cState::Idle, ..self }
    }
}

/// The subaddress behind `subaddr`.
fn step_subaddr(subaddr: u8) -> (r: u8)
    ensures
        r == next_subaddr(subaddr),
{
    if subaddr == 255 {
        0
    } else {
        (subaddr + 1) % 9
    }
}

impl Cdmc {
    /// A controller as it comes up.
    pub fn new() -> (r: Self)
        ensures
            r@ == CdmcModel::powered_on(),
            r@.well_formed(),
    {
        let mut regs: [u8; 9] = [0u8; 9];
        regs[reg::VERSION as usize] = reg::VERSION_VAL;
        let r = Cdmc { regs, subaddr: 0, state: I2cState::Idle };
        assert(r@.regs =~= CdmcModel::powered_on().regs);
        r
    }

    /// Brings the controller back to the state that it comes up in.
    pub fn power_on(&mut self)
        ensures
            final(self)@ == CdmcModel::powered_on(),
            final(self)@.well_formed(),
    {
        *self = Cdmc::new();
    }

    /// Whether a transfer is on that the controller takes part in.
    pub fn is_active(&self) -> (r: bool)
        ensures
            r == (self@.state != I2cState::Idle),
    {
        self.state != I2cState::Idle
    }

    /// A byte written to the bus.
    pub fn i2c_write(&mut self, data: u8)
        ensures
            final(self)@ == old(self)@.written(data),
    {
        match self.state {
            I2cState::Idle => {
                if data == I2C_WRITE_ADDR {
                    self.state = I2cState::SubaddrWrite;
                } else if data == I2C_READ_ADDR {
                    self.state = I2cState::SubaddrRead;
                }
            },
            I2cState::SubaddrWrite => {
                self.subaddr = data;
                self.state = I2cState::DataWrite;
            },
            I2cState::SubaddrRead => {
                self.subaddr = data;
                self.state = I2cState::DataRead;
            },
            I2cState::DataWrite => {
                self.reg_w(data);
                self.subaddr = step_subaddr(self.subaddr);
            },
            I2cState::DataRead => {
                self.state = I2cState::Idle;
            },
        }
    }

    /// A byte read from the bus.
    pub fn i2c_read(&mut self) -> (r: u8)
        ensures
            r == old(self)@.read_value(),
            final(self)@ == old(self)@.after_read(),
    {
        if self.state != I2cState::DataRead {
            self.state = I2cState::Idle;
            return 0;
        }
        let val: u8 = if (self.subaddr as usize) < reg::COUNT {
            self.regs[self.subaddr as usize]
        } else {
            0
        };
        self.subaddr = step_subaddr(self.subaddr);
        val
    }

    /// The bus was released.
    pub fn i2c_stop(&mut self)
        ensures
            final(self)@ == old(self)@.stopped(),
    {
        self.state = I2cState::Idle;
    }

    /// Stores a data byte in the register at the subaddress.
    fn reg_w(&mut self, data: u8)
        ensures
            final(self)@.regs == old(self)@.stored(data),
            final(self)@.subaddr == old(self)@.subaddr,
            final(self)@.state == old(self)@.state,
    {
        if (self.subaddr as usize) < reg::COUNT && self.subaddr != reg::VERSION {
            self.regs[self.subaddr as usize] = data;
        }
    }

    /// The name of a register.
    pub fn reg_name(subaddr: u8) -> (r: &'static str)
        ensures
            r@ == register_name(subaddr),
    {
        if subaddr == reg::VERSION {
            "VERSION"
        } else if subaddr == reg::GAIN {
            "GAIN"
        } else if subaddr == reg::BLUE_BAL {
            "BLUE_BAL"
        } else if subaddr == reg::RED_BAL {
            "RED_BAL"
        } else if subaddr == reg::RED_SAT {
            "RED_SAT"
        } else if subaddr == reg::BLUE_SAT {
            "BLUE_SAT"
        } else if subaddr == reg::SHUTTER_HI {
            "SHUTTER_HI"
        } else if subaddr == reg::SHUTTER_LO {
            "SHUTTER_LO"
        } else if subaddr == reg::CONTROL {
            "CONTROL"
        } else {
            "(unknown)"
        }
    }
}

/// The names of the registers in their order.
pub open spec fn register_names() -> Seq<Seq<char>> {
    seq![
        "VERSION"@,
        "GAIN"@,
        "BLUE_BAL"@,
        "RED_BAL"@,
        "RED_SAT"@,
        "BLUE_SAT"@,
        "SHUTTER_HI"@,
        "SHUTTER_LO"@,
        "CONTROL"@,
    ]
}

/// The name of the register at a subaddress.
pub open spec fn register_name(subaddr: u8) -> Seq<char> {
    if subaddr < reg::COUNT {
        register_names()[subaddr as int]
    } else {
        "(unknown)"@
    }
}

/// Whatever is written, read or released, the version register keeps its value.
pub proof fn law_version_is_kept(c: CdmcModel, data: u8)
    requires
        c.well_formed(),
    ensures
        c.written(data).well_formed(),
        c.after_read().well_formed(),
        c.stopped().well_formed(),
{
}

/// Some bytes written one after the other.
pub open spec fn all_written(c: CdmcModel, data: Seq<u8>) -> CdmcModel
    decreases data.len(),
{
    if data.len() == 0 {
        c
    } else {
        all_written(c, data.drop_last()).written(data.last())
    }
}

/// What was written to a register reads back: a write transfer to it, and then a
/// read transfer from it, give the byte. The version reads as itself.
pub proof fn law_register_reads_back(c: CdmcModel, subaddr: u8, data: u8)
    requires
        c.well_formed(),
        subaddr < reg::COUNT,
    ensures
        ({
            let w = all_written(c.stopped(), seq![I2C_WRITE_ADDR, subaddr, data]);
            let r = all_written(w.stopped(), seq![I2C_READ_ADDR, subaddr]);
            &&& r.read_value() == (if subaddr == reg::VERSION {
                reg::VERSION_VAL
            } else {
                data
            })
            &&& forall|i: int| 0 <= i < reg::COUNT && i != subaddr ==> #[trigger] r.regs[i] == c.regs[i]
        }),
{
    let first = c.stopped();
    let wb = seq![I2C_WRITE_ADDR, subaddr, data];
    assert(wb.drop_last() =~= seq![I2C_WRITE_ADDR, subaddr]);
    assert(wb.drop_last().drop_last() =~= seq![I2C_WRITE_ADDR]);
    assert(wb.drop_last().drop_last().drop_last() =~= Seq::<u8>::empty());
    assert(all_written(first, wb.drop_last().drop_last().drop_last()) == first);
    assert(all_written(first, wb.drop_last().drop_last()) == first.written(I2C_WRITE_ADDR));
    assert(all_written(first, wb.drop_last()) == first.written(I2C_WRITE_ADDR).written(subaddr));
    let w = all_written(first, wb);
    assert(w == first.written(I2C_WRITE_ADDR).written(subaddr).written(data));
    let second = w.stopped();
    let rb = seq![I2C_READ_ADDR, subaddr];
    assert(rb.drop_last() =~= seq![I2C_READ_ADDR]);
    assert(rb.drop_last().drop_last() =~= Seq::<u8>::empty());
    assert(all_written(second, rb.drop_last().drop_last()) == second);
    assert(all_written(second, rb.drop_last()) == second.written(I2C_READ_ADDR));
    assert(all_written(second, rb) == second.written(I2C_READ_ADDR).written(subaddr));
}

/// Until it is addressed the controller leaves the bus alone: no other byte
/// changes it.
pub proof fn law_other_addresses_are_ignored(c: CdmcModel, data: u8)
    requires
        c.state == I2cState::Idle,
        data != I2C_WRITE_ADDR,
        data != I2C_READ_ADDR,
    ensures
        c.written(data) == c,
{
}

/// A transfer starts with the address 174 to write or 175 to read; the byte behind it is the
/// subaddress. Each data byte of a write goes to the register at the subaddress, but for
/// register 0 and numbers above 8, and moves the subaddress on. A byte that is written while
/// data is read ends the transfer.
pub proof fn law_bytes_of_a_transfer(c: CdmcModel, data: u8)
    requires
        c.regs.len() == 9,
    ensures
        ({
            let after = c.written(data);
            let next: int = if c.subaddr == 255 {
                0
            } else {
                (c.subaddr + 1) % 9
            };
            &&& c.state == I2cState::Idle && data == 174 ==> after.state == I2cState::SubaddrWrite
            &&& c.state == I2cState::Idle && data == 175 ==> after.state == I2cState::SubaddrRead
            &&& c.state == I2cState::Idle && data != 174 && data != 175 ==> after.state == I2cState::Idle
            &&& c.state == I2cState::SubaddrWrite ==> after.state == I2cState::DataWrite && after.subaddr == data
            &&& c.state == I2cState::SubaddrRead ==> after.state == I2cState::DataRead && after.subaddr == data
            &&& c.state == I2cState::DataWrite ==> after.state == I2cState::DataWrite && after.subaddr == next
            &&& c.state == I2cState::DataRead ==> after.state == I2cState::Idle
            &&& c.state == I2cState::Idle || c.state == I2cState::DataRead ==> after.subaddr == c.subaddr
            &&& c.state == I2cState::DataWrite && 1 <= c.subaddr <= 8 ==> after.regs == c.regs.update(
                c.subaddr as int,
                data,
            )
            &&& c.state != I2cState::DataWrite || c.subaddr == 0 || c.subaddr > 8 ==> after.regs == c.regs
        }),
{
}

/// A read gives the register at the subaddress, zero where there is none, and moves the
/// subaddress on; where no read is on it gives zero and ends the transfer. Releasing the bus
/// ends a transfer and changes nothing else.
pub proof fn law_bytes_that_are_read(c: CdmcModel)
    requires
        c.regs.len() == 9,
    ensures
        ({
            let next: int = if c.subaddr == 255 {
                0
            } else {
                (c.subaddr + 1) % 9
            };
            &&& c.state == I2cState::DataRead && c.subaddr <= 8 ==> c.read_value() == c.regs[c.subaddr as int]
            &&& c.state != I2cState::DataRead || c.subaddr > 8 ==> c.read_value() == 0
            &&& c.state == I2cState::DataRead ==> c.after_read().subaddr == next && c.after_read().state
                == I2cState::DataRead
            &&& c.state != I2cState::DataRead ==> c.after_read().subaddr == c.subaddr && c.after_read().state
                == I2cState::Idle
            &&& c.after_read().regs == c.regs
            &&& c.stopped().state == I2cState::Idle && c.stopped().regs == c.regs && c.stopped().subaddr == c.subaddr
        }),
{
}

/// A controller comes up idle at register 0, with 18 in it and zero in the eight others.
pub proof fn law_power_on(i: int)
    ensures
        CdmcModel::powered_on().regs.len() == 9,
        CdmcModel::powered_on().regs[0] == 18,
        1 <= i < 9 ==> CdmcModel::powered_on().regs[i] == 0,
        CdmcModel::powered_on().subaddr == 0,
        CdmcModel::powered_on().state == I2cState::Idle,
{
}

/// The names of the registers.
pub proof fn law_names_of_registers(subaddr: u8)
    ensures
        register_name(0) == "VERSION"@ && register_name(1) == "GAIN"@ && register_name(2) == "BLUE_BAL"@,
        register_name(3) == "RED_BAL"@ && register_name(4) == "RED_SAT"@ && register_name(5) == "BLUE_SAT"@,
        register_name(6) == "SHUTTER_HI"@ && register_name(7) == "SHUTTER_LO"@ && register_name(8) == "CONTROL"@,
        subaddr > 8 ==> register_name(subaddr) == "(unknown)"@,
{
}

/// A controller and its model hold the same; it is well formed as long as it has nine
/// registers and the first of them is 18.
pub proof fn law_model_of_a_controller(c: Cdmc)
    ensures
        c@.regs == c.regs@ && c@.subaddr == c.subaddr && c@.state == c.state,
        c@.well_formed() <==> c.regs@[0] == 18,
{
}

}
