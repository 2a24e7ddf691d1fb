//! The CHIP-8 virtual machine.
//!
//! The machine is a plain value: memory, registers, stack, timers and the
//! frame buffer. Every transition is described by a function on the abstract
//! [`State`]; the executable methods of [`VM`] are proved to compute exactly
//! that function. Whatever needs a window, a keyboard, a speaker or a clock
//! is handed in as an argument or handed back as a result.

use crate::opcode::{
    lemma_opcode_fields, lemma_word_from_bytes, op_class, op_kk, op_n, op_nnn, op_x, op_y,
};
use vstd::prelude::*;

verus! {

/// The width of the display in pixels
pub const DISPLAY_WIDTH: usize = 64;

/// The height of the display in pixels
pub const DISPLAY_HEIGHT: usize = 32;

/// The number of pixels of the display
pub const DISPLAY_SIZE: usize = 2048;

/// The number of bytes of memory
pub const RAM_SIZE: usize = 4096;

/// The address at which programs are loaded and start
pub const PROGRAM_START: u16 = 0x200;

/// The largest program that fits between [`PROGRAM_START`] and the end of memory
pub const MAX_PROGRAM_SIZE: usize = 3584;

/// The number of bytes of the built-in font, which starts at address 0
pub const FONT_SIZE: usize = 80;

/// The number of return addresses the call stack can hold
pub const STACK_DEPTH: usize = 16;

/// The index of the flag register `VF`
pub const FLAG: usize = 15;

/// A condition that stops the machine for good
#[derive(Debug, Clone, Copy, PartialEq, Eq, Structural)]
pub enum Fault {
    /// `0nnn`: a call of a native routine, which no interpreter can run
    NativeCall { address: u16 },
    /// A word that is no instruction
    UnknownOpcode { opcode: u16 },
    /// `2nnn` with sixteen return addresses already on the stack
    StackOverflow,
    /// `00EE` with no return address on the stack
    StackUnderflow,
    /// An access starting at `address` that reaches beyond the end of memory
    AddressOutOfRange { address: u16 },
    /// A program of `size` bytes, more than [`MAX_PROGRAM_SIZE`]
    ProgramTooLarge { size: usize },
}

/// The points on which interpreters of the language differ
#[derive(Debug, Clone, Copy, PartialEq, Eq, Structural)]
pub struct Quirks {
    /// `Fx55` and `Fx65` leave the index register behind the last byte
    /// that they touched; without the quirk they leave it as it was
    pub index_advances: bool,
    /// `8xy6` and `8xyE` shift the value of `Vy`; without the quirk they
    /// shift the value of `Vx`
    pub shift_reads_vy: bool,
}

impl Quirks {
    /// The quirks that the machine has unless it is told otherwise: both
    pub open spec fn standard() -> Quirks {
        Quirks { index_advances: true, shift_reads_vy: true }
    }
}

impl Default for Quirks {
    fn default() -> (quirks: Quirks)
        ensures
            quirks == Quirks::standard(),
    {
        Quirks { index_advances: true, shift_reads_vy: true }
    }
}

/// What the host reports to the machine
#[derive(Debug, Clone, Copy, PartialEq, Eq, Structural)]
pub enum Event {
    /// The user asks to leave
    Quit,
    /// A key of the keypad, `0` to `F`, has been released
    KeyReleased(u8),
}

/// What the host is to do after a cycle
#[derive(Debug, Clone, Copy, PartialEq, Eq, Structural)]
pub struct Cycle {
    /// Show the frame
    pub present: bool,
    /// Switch the tone on or off; `None` where the timers did not tick
    pub audio: Option<bool>,
}

/// The abstract state of the machine
pub struct State {
    /// Cleared by a quit request
    pub running: bool,
    /// 4096 bytes; the font occupies the first 80
    pub ram: Seq<u8>,
    /// The address of the next instruction
    pub pc: u16,
    /// The registers `V0` to `VF`
    pub reg: Seq<u8>,
    /// The index register `I`
    pub index: u16,
    /// The sixteen slots of the call stack
    pub stack: Seq<u16>,
    /// The next free slot of the call stack
    pub sp: nat,
    pub delay_timer: u8,
    pub sound_timer: u8,
    /// The register that receives the next released key, while the machine waits for one
    pub waiting_for_key: Option<u8>,
    /// 64 x 32 pixels, row by row from the top left
    pub display: Seq<bool>,
    /// How the machine behaves where interpreters differ
    pub quirks: Quirks,
}

/// The built-in hexadecimal font: sixteen glyphs of five rows each
pub open spec fn font() -> Seq<u8> {
    seq![
        0xF0u8, 0x90, 0x90, 0x90, 0xF0,
        0x20, 0x60, 0x20, 0x20, 0x70,
        0xF0, 0x10, 0xF0, 0x80, 0xF0,
        0xF0, 0x10, 0xF0, 0x10, 0xF0,
        0x90, 0x90, 0xF0, 0x10, 0x10,
        0xF0, 0x80, 0xF0, 0x10, 0xF0,
        0xF0, 0x80, 0xF0, 0x90, 0xF0,
        0xF0, 0x10, 0x20, 0x40, 0x40,
        0xF0, 0x90, 0xF0, 0x90, 0xF0,
        0xF0, 0x90, 0xF0, 0x10, 0xF0,
        0xF0, 0x90, 0xF0, 0x90, 0x90,
        0xE0, 0x90, 0xE0, 0x90, 0xE0,
        0xF0, 0x80, 0x80, 0x80, 0xF0,
        0xE0, 0x90, 0x90, 0x90, 0xE0,
        0xF0, 0x80, 0xF0, 0x80, 0xF0,
        0xF0, 0x80, 0xF0, 0x80, 0x80,
    ]
}

/// The state of a machine that has just been switched on
pub open spec fn initial_state(quirks: Quirks) -> State {
    State {
        quirks,
        running: true,
        ram: Seq::new(4096, |a: int| if a < 80 { font()[a] } else { 0u8 }),
        pc: 0x200,
        reg: Seq::new(16, |i: int| 0u8),
        index: 0,
        stack: Seq::new(16, |i: int| 0u16),
        sp: 0,
        delay_timer: 0,
        sound_timer: 0,
        waiting_for_key: None,
        display: Seq::new(2048, |p: int| false),
    }
}

impl State {
    /// What every reachable state satisfies
    pub open spec fn wf(self) -> bool {
        &&& self.ram.len() == 4096
        &&& self.reg.len() == 16
        &&& self.stack.len() == 16
        &&& self.sp <= 16
        &&& self.display.len() == 2048
        &&& (self.waiting_for_key matches Some(r) ==> r < 16)
    }

    /// The state with register `x` set to `value`
    pub open spec fn with_reg(self, x: int, value: u8) -> State {
        State { reg: self.reg.update(x, value), ..self }
    }

    /// The state with register `x` set to `value` and then `VF` to `flag`:
    /// where `x` is `VF` itself, the flag is what stays
    pub open spec fn with_result(self, x: int, value: u8, flag: u8) -> State {
        State { reg: self.reg.update(x, value).update(15, flag), ..self }
    }

    /// The state with the next instruction skipped if `condition` holds
    pub open spec fn skip_if(self, condition: bool) -> State {
        if condition {
            State { pc: ((self.pc + 2) % 0x1_0000) as u16, ..self }
        } else {
            self
        }
    }
}


// Arithmetic

/// The result and the flag of the operation that the last nibble `n` of an
/// `8xy_` instruction selects, on the values of `Vx` and `Vy`. The shifts
/// work on `shifted`, which is the one or the other.
pub open spec fn alu(n: int, vx: u8, vy: u8, shifted: u8) -> Option<(u8, u8)> {
    if n == 1 {
        Some((vx | vy, 0u8))
    } else if n == 2 {
        Some((vx & vy, 0u8))
    } else if n == 3 {
        Some((vx ^ vy, 0u8))
    } else if n == 4 {
        Some((((vx + vy) % 256) as u8, if vx + vy >= 256 { 1u8 } else { 0u8 }))
    } else if n == 5 {
        Some((((vx - vy) % 256) as u8, if vx >= vy { 1u8 } else { 0u8 }))
    } else if n == 6 {
        Some((shifted >> 1, shifted & 1))
    } else if n == 7 {
        Some((((vy - vx) % 256) as u8, if vy >= vx { 1u8 } else { 0u8 }))
    } else if n == 0xE {
        Some((((shifted * 2) % 256) as u8, shifted >> 7))
    } else {
        None
    }
}

// Drawing

/// One dot of a sprite row: bit 7 of the byte is the leftmost dot
pub open spec fn sprite_bit(byte: u8, bit: u8) -> bool {
    (byte >> ((7 - bit) as u8)) & 1 == 1
}

/// The number of rows of an `n`-row sprite at row `y0` that fall on the display
pub open spec fn rows_drawn(y0: int, n: int) -> int {
    if y0 + n <= 32 {
        n
    } else {
        32 - y0
    }
}

/// Whether pixel `p` lies under an `n`-row sprite whose top left corner is at (`x0`, `y0`)
pub open spec fn sprite_covers(x0: int, y0: int, n: int, p: int) -> bool {
    &&& y0 <= p / 64 < y0 + n
    &&& x0 <= p % 64 < x0 + 8
}

impl State {
    /// The dot of the sprite at `index` that falls on pixel `p`
    pub open spec fn sprite_dot(self, x0: int, y0: int, p: int) -> bool {
        sprite_bit(self.ram[self.index + (p / 64 - y0)], (p % 64 - x0) as u8)
    }

    /// The display after the sprite has been XORed onto it; dots beyond the
    /// right or the bottom edge are dropped
    pub open spec fn drawn_display(self, x0: int, y0: int, n: int) -> Seq<bool> {
        Seq::new(
            2048,
            |p: int|
                if sprite_covers(x0, y0, n, p) {
                    self.display[p] != self.sprite_dot(x0, y0, p)
                } else {
                    self.display[p]
                },
        )
    }

    /// Whether a dot of the sprite falls on a pixel that is on
    pub open spec fn sprite_collides(self, x0: int, y0: int, n: int) -> bool {
        exists|p: int|
            0 <= p < 2048 && sprite_covers(x0, y0, n, p) && self.display[p]
                && #[trigger] self.sprite_dot(x0, y0, p)
    }

    /// Whether dot `bit` of row `row` of the sprite at `index`, drawn with
    /// its top left corner at (`x0`, `y0`), falls on the display and on a
    /// pixel that is on, and is set
    pub open spec fn sprite_hits(self, x0: int, y0: int, row: int, bit: int) -> bool {
        &&& y0 + row < 32
        &&& x0 + bit < 64
        &&& self.display[(y0 + row) * 64 + x0 + bit]
        &&& sprite_bit(self.ram[self.index + row], bit as u8)
    }

    /// A sprite of `n` rows drawn at (`x`, `y`): the position wraps, the
    /// sprite is clipped, `VF` reports a collision. The rows that fall on
    /// the display must lie in memory.
    pub open spec fn draw_at(self, x: u8, y: u8, n: int) -> Result<State, Fault> {
        let x0 = x as int % 64;
        let y0 = y as int % 32;
        if self.index + rows_drawn(y0, n) > 4096 {
            Err(Fault::AddressOutOfRange { address: self.index })
        } else {
            Ok(
                State {
                    display: self.drawn_display(x0, y0, n),
                    reg: self.reg.update(
                        15,
                        if self.sprite_collides(x0, y0, n) {
                            1u8
                        } else {
                            0u8
                        },
                    ),
                    ..self
                },
            )
        }
    }

    /// `Dxyn`: the sprite of `n` rows at `I` is drawn at (`Vx`, `Vy`)
    pub open spec fn draw(self, opcode: u16) -> Result<State, Fault> {
        self.draw_at(self.reg[op_x(opcode)], self.reg[op_y(opcode)], op_n(opcode))
    }

    /// `8xy_`: register to register operations. The result is stored first
    /// and the flag second, so with `VF` as the target the flag is what stays.
    pub open spec fn arithmetic(self, opcode: u16) -> Result<State, Fault> {
        let x = op_x(opcode);
        let vx = self.reg[x];
        let vy = self.reg[op_y(opcode)];
        if op_n(opcode) == 0 {
            Ok(self.with_reg(x, vy))
        } else {
            match alu(op_n(opcode), vx, vy, if self.quirks.shift_reads_vy { vy } else { vx }) {
                Some((value, flag)) => Ok(self.with_result(x, value, flag)),
                None => Err(Fault::UnknownOpcode { opcode }),
            }
        }
    }

    /// `Ex__`: skips that depend on the keypad. Only the low nibble of `Vx` names the key.
    pub open spec fn keypad_skip(self, opcode: u16, keys: Seq<bool>) -> Result<State, Fault> {
        let down = keys[self.reg[op_x(opcode)] as int % 16];
        if op_kk(opcode) == 0x9E {
            Ok(self.skip_if(down))
        } else if op_kk(opcode) == 0xA1 {
            Ok(self.skip_if(!down))
        } else {
            Err(Fault::UnknownOpcode { opcode })
        }
    }

    /// `Fx__`: timers, the index register and memory
    pub open spec fn timers_and_memory(self, opcode: u16) -> Result<State, Fault> {
        let x = op_x(opcode);
        let vx = self.reg[x];
        let kk = op_kk(opcode);
        let index = self.index as int;
        if kk == 0x07 {
            Ok(self.with_reg(x, self.delay_timer))
        } else if kk == 0x0A {
            Ok(State { waiting_for_key: Some(x as u8), ..self })
        } else if kk == 0x15 {
            Ok(State { delay_timer: vx, ..self })
        } else if kk == 0x18 {
            Ok(State { sound_timer: vx, ..self })
        } else if kk == 0x1E {
            Ok(State { index: ((index + vx) % 0x1_0000) as u16, ..self })
        } else if kk == 0x29 {
            Ok(State { index: (vx * 5) as u16, ..self })
        } else if kk == 0x33 {
            if index + 2 >= 4096 {
                Err(Fault::AddressOutOfRange { address: self.index })
            } else {
                Ok(
                    State {
                        ram: self.ram.update(index, vx / 100).update(
                            index + 1,
                            (vx / 10) % 10,
                        ).update(index + 2, vx % 10),
                        ..self
                    },
                )
            }
        } else if kk == 0x55 {
            if index + x >= 4096 {
                Err(Fault::AddressOutOfRange { address: self.index })
            } else {
                Ok(
                    State {
                        ram: Seq::new(
                            4096,
                            |a: int|
                                if index <= a <= index + x {
                                    self.reg[a - index]
                                } else {
                                    self.ram[a]
                                },
                        ),
                        index: if self.quirks.index_advances {
                            (index + x + 1) as u16
                        } else {
                            self.index
                        },
                        ..self
                    },
                )
            }
        } else if kk == 0x65 {
            if index + x >= 4096 {
                Err(Fault::AddressOutOfRange { address: self.index })
            } else {
                Ok(
                    State {
                        reg: Seq::new(
                            16,
                            |i: int|
                                if i <= x {
                                    self.ram[index + i]
                                } else {
                                    self.reg[i]
                                },
                        ),
                        index: if self.quirks.index_advances {
                            (index + x + 1) as u16
                        } else {
                            self.index
                        },
                        ..self
                    },
                )
            }
        } else {
            Err(Fault::UnknownOpcode { opcode })
        }
    }

    /// `00E0`, `00EE`, `0nnn`, `1nnn`, `2nnn` and `Bnnn`: the screen, and where execution goes on
    pub open spec fn control(self, opcode: u16) -> Result<State, Fault> {
        let class = op_class(opcode);
        let nnn = op_nnn(opcode);
        if opcode == 0x00E0 {
            Ok(State { display: Seq::new(2048, |p: int| false), ..self })
        } else if opcode == 0x00EE {
            if self.sp == 0 {
                Err(Fault::StackUnderflow)
            } else {
                Ok(State { pc: self.stack[self.sp - 1], sp: (self.sp - 1) as nat, ..self })
            }
        } else if class == 0 {
            Err(Fault::NativeCall { address: nnn })
        } else if class == 1 {
            Ok(State { pc: nnn, ..self })
        } else if class == 2 {
            if self.sp >= 16 {
                Err(Fault::StackOverflow)
            } else {
                Ok(
                    State {
                        stack: self.stack.update(self.sp as int, self.pc),
                        sp: self.sp + 1,
                        pc: nnn,
                        ..self
                    },
                )
            }
        } else {
            Ok(State { pc: (nnn + self.reg[0]) as u16, ..self })
        }
    }

    /// `3xkk`, `4xkk`, `5xy0` and `9xy0`: skips that depend on registers
    pub open spec fn compare(self, opcode: u16) -> Result<State, Fault> {
        let class = op_class(opcode);
        let vx = self.reg[op_x(opcode)];
        let vy = self.reg[op_y(opcode)];
        let kk = op_kk(opcode);
        if class == 3 {
            Ok(self.skip_if(vx == kk))
        } else if class == 4 {
            Ok(self.skip_if(vx != kk))
        } else if op_n(opcode) != 0 {
            Err(Fault::UnknownOpcode { opcode })
        } else if class == 5 {
            Ok(self.skip_if(vx == vy))
        } else {
            Ok(self.skip_if(vx != vy))
        }
    }

    /// `6xkk`, `7xkk`, `Annn` and `Cxkk`: immediate operands
    pub open spec fn immediate(self, opcode: u16, random: u8) -> State {
        let class = op_class(opcode);
        let x = op_x(opcode);
        let kk = op_kk(opcode);
        if class == 6 {
            self.with_reg(x, kk)
        } else if class == 7 {
            self.with_reg(x, ((self.reg[x] + kk) % 256) as u8)
        } else if class == 0xA {
            State { index: op_nnn(opcode), ..self }
        } else {
            self.with_reg(x, random & kk)
        }
    }

    /// The effect of one instruction. `keys` tells for each key of the keypad
    /// whether it is down; `random` is the byte that `Cxkk` draws.
    pub open spec fn step(self, opcode: u16, keys: Seq<bool>, random: u8) -> Result<State, Fault> {
        let class = op_class(opcode);
        if class == 0 || class == 1 || class == 2 || class == 0xB {
            self.control(opcode)
        } else if class == 3 || class == 4 || class == 5 || class == 9 {
            self.compare(opcode)
        } else if class == 6 || class == 7 || class == 0xA || class == 0xC {
            Ok(self.immediate(opcode, random))
        } else if class == 8 {
            self.arithmetic(opcode)
        } else if class == 0xD {
            self.draw(opcode)
        } else if class == 0xE {
            self.keypad_skip(opcode, keys)
        } else {
            self.timers_and_memory(opcode)
        }
    }

    /// Whether the fetch of the next instruction stays inside memory
    pub open spec fn can_fetch(self) -> bool {
        self.pc + 1 < 4096
    }

    /// The instruction word at the program counter, high byte first
    pub open spec fn next_opcode(self) -> u16 {
        (self.ram[self.pc as int] * 256 + self.ram[self.pc + 1]) as u16
    }

    /// The state with the program counter moved past the fetched word
    pub open spec fn after_fetch(self) -> State {
        State { pc: (self.pc + 2) as u16, ..self }
    }

    /// The state after a sixtieth of a second: each timer that is not zero loses one
    pub open spec fn after_tick(self) -> State {
        State {
            delay_timer: if self.delay_timer > 0 {
                (self.delay_timer - 1) as u8
            } else {
                0
            },
            sound_timer: if self.sound_timer > 0 {
                (self.sound_timer - 1) as u8
            } else {
                0
            },
            ..self
        }
    }

    /// The state after `key` has been released: a machine that waits for a
    /// key stores it and goes on; any other machine, and any key that is not
    /// on the keypad, changes nothing
    pub open spec fn after_key_release(self, key: u8) -> State {
        match self.waiting_for_key {
            Some(r) if key < 16 => State {
                reg: self.reg.update(r as int, key),
                waiting_for_key: None,
                ..self
            },
            _ => self,
        }
    }

    /// The state after one event of the host
    pub open spec fn after_event(self, event: Event) -> State {
        match event {
            Event::Quit => State { running: false, ..self },
            Event::KeyReleased(key) => self.after_key_release(key),
        }
    }

    /// The state after the events of the host, first to last
    pub open spec fn after_events(self, events: Seq<Event>) -> State
        decreases events.len(),
    {
        if events.len() == 0 {
            self
        } else {
            self.after_events(events.drop_last()).after_event(events.last())
        }
    }

    /// The state at the point of a cycle where the next instruction is due:
    /// the events have been taken in and, where a sixtieth of a second has
    /// passed, the timers have ticked
    pub open spec fn ready(self, events: Seq<Event>, timer_due: bool) -> State {
        if timer_due {
            self.after_events(events).after_tick()
        } else {
            self.after_events(events)
        }
    }

    /// The state with `program` copied to [`PROGRAM_START`]
    pub open spec fn with_program(self, program: Seq<u8>) -> State {
        State {
            ram: Seq::new(
                4096,
                |a: int|
                    if 0x200 <= a < 0x200 + program.len() {
                        program[a - 0x200]
                    } else {
                        self.ram[a]
                    },
            ),
            ..self
        }
    }
}

/// Whether the instruction, where it succeeds, asks for the frame to be shown
pub open spec fn presents(opcode: u16) -> bool {
    opcode == 0x00E0 || op_class(opcode) == 0xD
}


/// Shifting a byte left by one doubles it and drops the carry
proof fn lemma_shift_left(value: u8)
    by (bit_vector)
    ensures
        value << 1 == (value * 2) % 256,
        value >> 7 <= 1,
        value & 1 <= 1,
{
}

/// The arithmetic unit
fn compute(n: u8, vx: u8, vy: u8, shifted: u8) -> (out: Option<(u8, u8)>)
    ensures
        out == alu(n as int, vx, vy, shifted),
{
    proof {
        lemma_shift_left(shifted);
    }
    match n {
        0x1 => Some((vx | vy, 0)),
        0x2 => Some((vx & vy, 0)),
        0x3 => Some((vx ^ vy, 0)),
        0x4 => Some((vx.wrapping_add(vy), if vx as u16 + vy as u16 > 255 { 1 } else { 0 })),
        0x5 => Some((vx.wrapping_sub(vy), if vx >= vy { 1 } else { 0 })),
        0x6 => Some((shifted >> 1, shifted & 1)),
        0x7 => Some((vy.wrapping_sub(vx), if vy >= vx { 1 } else { 0 })),
        0xE => Some((shifted << 1, shifted >> 7)),
        _ => None,
    }
}

/// A sprite collides where one of its dots hits, and where it collides
/// a pixel that was on goes off
pub proof fn lemma_collision(state: State, x0: int, y0: int, n: int)
    requires
        state.wf(),
        0 <= x0 < 64,
        0 <= y0 < 32,
    ensures
        state.sprite_collides(x0, y0, n) <==> exists|row: int, bit: int|
            0 <= row < n && 0 <= bit < 8 && #[trigger] state.sprite_hits(x0, y0, row, bit),
        state.sprite_collides(x0, y0, n) <==> exists|p: int|
            0 <= p < 2048 && state.display[p] && !#[trigger] state.drawn_display(x0, y0, n)[p],
{
    let drawn = state.drawn_display(x0, y0, n);
    if state.sprite_collides(x0, y0, n) {
        let p = choose|p: int|
            0 <= p < 2048 && sprite_covers(x0, y0, n, p) && state.display[p]
                && #[trigger] state.sprite_dot(x0, y0, p);
        let row = p / 64 - y0;
        let bit = p % 64 - x0;
        assert((y0 + row) * 64 + x0 + bit == p);
        assert(state.sprite_hits(x0, y0, row, bit));
        assert(state.display[p] && !drawn[p]);
    }
    if exists|row: int, bit: int|
        0 <= row < n && 0 <= bit < 8 && #[trigger] state.sprite_hits(x0, y0, row, bit) {
        let (row, bit) = choose|row: int, bit: int|
            0 <= row < n && 0 <= bit < 8 && #[trigger] state.sprite_hits(x0, y0, row, bit);
        let p = (y0 + row) * 64 + x0 + bit;
        assert(p / 64 == y0 + row && p % 64 == x0 + bit);
        assert(sprite_covers(x0, y0, n, p) && state.display[p] && state.sprite_dot(x0, y0, p));
    }
    if exists|p: int| 0 <= p < 2048 && state.display[p] && !#[trigger] drawn[p] {
        let p = choose|p: int| 0 <= p < 2048 && state.display[p] && !#[trigger] drawn[p];
        assert(sprite_covers(x0, y0, n, p) && state.sprite_dot(x0, y0, p));
    }
}

/// The machine
pub struct VM {
    running: bool,
    ram: Vec<u8>,
    pc: u16,
    reg: [u8; 16],
    reg_i: u16,
    stack: [u16; 16],
    sp: usize,
    delay_timer: u8,
    sound_timer: u8,
    waiting_for_key: Option<u8>,
    display: Vec<bool>,
    quirks: Quirks,
}

impl View for VM {
    type V = State;

    closed spec fn view(&self) -> State {
        State {
            running: self.running,
            ram: self.ram@,
            pc: self.pc,
            reg: self.reg@,
            index: self.reg_i,
            stack: self.stack@,
            sp: self.sp as nat,
            delay_timer: self.delay_timer,
            sound_timer: self.sound_timer,
            waiting_for_key: self.waiting_for_key,
            display: self.display@,
            quirks: self.quirks,
        }
    }
}

/// The bytes of the built-in font
fn font_data() -> (data: [u8; 80])
    ensures
        data@ == font(),
{
    let data: [u8; 80] = [
        0xF0, 0x90, 0x90, 0x90, 0xF0,
        0x20, 0x60, 0x20, 0x20, 0x70,
        0xF0, 0x10, 0xF0, 0x80, 0xF0,
        0xF0, 0x10, 0xF0, 0x10, 0xF0,
        0x90, 0x90, 0xF0, 0x10, 0x10,
        0xF0, 0x80, 0xF0, 0x10, 0xF0,
        0xF0, 0x80, 0xF0, 0x90, 0xF0,
        0xF0, 0x10, 0x20, 0x40, 0x40,
        0xF0, 0x90, 0xF0, 0x90, 0xF0,
        0xF0, 0x90, 0xF0, 0x10, 0xF0,
        0xF0, 0x90, 0xF0, 0x90, 0x90,
        0xE0, 0x90, 0xE0, 0x90, 0xE0,
        0xF0, 0x80, 0x80, 0x80, 0xF0,
        0xE0, 0x90, 0x90, 0x90, 0xE0,
        0xF0, 0x80, 0xF0, 0x80, 0xF0,
        0xF0, 0x80, 0xF0, 0x80, 0x80,
    ];
    assert(data@ =~= font());
    data
}

impl VM {
    #[verifier::type_invariant]
    spec fn well_formed(self) -> bool {
        self@.wf()
    }

    /// Create a new virtual machine: memory holds the font and is otherwise
    /// zero, the display is blank and the program counter is at
    /// [`PROGRAM_START`]
    pub fn new() -> (vm: VM)
        ensures
            vm@ == initial_state(Quirks::standard()),
            vm@.wf(),
    {
        VM::with_quirks(Quirks::default())
    }

    /// Create a new virtual machine that behaves as `quirks` say where
    /// interpreters differ
    pub fn with_quirks(quirks: Quirks) -> (vm: VM)
        ensures
            vm@ == initial_state(quirks),
            vm@.wf(),
    {
        let glyphs = font_data();
        let mut ram: Vec<u8> = vec![0u8; 4096];
        let mut a: usize = 0;
        while a < 80
            invariant
                a <= 80,
                glyphs@ == font(),
                ram@.len() == 4096,
                forall|b: int| 0 <= b < a ==> ram@[b] == font()[b],
                forall|b: int| a <= b < 4096 ==> ram@[b] == 0u8,
            decreases 80 - a,
        {
            ram[a] = glyphs[a];
            a += 1;
        }
        let vm = VM {
            running: true,
            ram,
            pc: 0x200,
            reg: [0u8; 16],
            reg_i: 0,
            stack: [0u16; 16],
            sp: 0,
            delay_timer: 0,
            sound_timer: 0,
            waiting_for_key: None,
            display: vec![false; 2048],
            quirks,
        };
        assert(vm@.ram =~= initial_state(quirks).ram);
        assert(vm@.reg =~= initial_state(quirks).reg);
        assert(vm@.stack =~= initial_state(quirks).stack);
        assert(vm@.display =~= initial_state(quirks).display);
        vm
    }

    /// Load a program into the virtual machine, at [`PROGRAM_START`]. A
    /// program that does not fit is refused and nothing changes.
    pub fn load_program(&mut self, program: &[u8]) -> (loaded: Result<(), Fault>)
        ensures
            old(self)@.wf(),
            final(self)@.wf(),
            program@.len() <= 3584 ==> loaded == Ok::<(), Fault>(()) && final(self)@ == old(
                self,
            )@.with_program(program@),
            program@.len() > 3584 ==> loaded == Err::<(), Fault>(
                Fault::ProgramTooLarge { size: program@.len() as usize },
            ) && final(self)@ == old(self)@,
    {
        proof {
            use_type_invariant(&*self);
        }
        if program.len() > MAX_PROGRAM_SIZE {
            return Err(Fault::ProgramTooLarge { size: program.len() });
        }
        let ghost before = self@;
        let mut k: usize = 0;
        while k < program.len()
            invariant
                k <= program@.len() <= 3584,
                before.wf(),
                self.ram@.len() == 4096,
                self@ == (State { ram: self.ram@, ..before }),
                forall|a: int| 0x200 <= a < 0x200 + k ==> self.ram@[a] == program@[a - 0x200],
                forall|a: int|
                    0 <= a < 4096 && !(0x200 <= a < 0x200 + k) ==> self.ram@[a] == before.ram[a],
            decreases program@.len() - k,
        {
            self.ram[0x200 + k] = program[k];
            k += 1;
        }
        assert(self@.ram =~= before.with_program(program@).ram);
        Ok(())
    }
}


/// Draws a byte with `rand::random`, which asks the generator of the
/// current thread and fails only where the operating system has no seed
/// for it. Nothing is claimed of the byte.
#[verifier::external_body]
fn random_byte() -> (byte: u8) {
    rand::random::<u8>()
}

impl VM {
    fn push(&mut self, value: u16)
        requires
            old(self)@.sp < 16,
        ensures
            final(self)@ == (State {
                stack: old(self)@.stack.update(old(self)@.sp as int, value),
                sp: old(self)@.sp + 1,
                ..old(self)@
            }),
    {
        proof {
            use_type_invariant(&*self);
        }
        self.stack[self.sp] = value;
        self.sp += 1;
    }

    fn pop(&mut self) -> (value: u16)
        requires
            old(self)@.sp > 0,
        ensures
            value == old(self)@.stack[old(self)@.sp - 1],
            final(self)@ == (State { sp: (old(self)@.sp - 1) as nat, ..old(self)@ }),
    {
        proof {
            use_type_invariant(&*self);
        }
        self.sp -= 1;
        self.stack[self.sp]
    }

    fn skip(&mut self, condition: bool)
        ensures
            final(self)@ == old(self)@.skip_if(condition),
    {
        proof {
            use_type_invariant(&*self);
        }
        if condition {
            self.pc = self.pc.wrapping_add(2);
        }
    }

    /// Read the instruction word at the program counter and move past it.
    /// Where the word would reach beyond the end of memory, nothing changes.
    pub fn fetch(&mut self) -> (fetched: Result<u16, Fault>)
        ensures
            old(self)@.wf(),
            final(self)@.wf(),
            old(self)@.can_fetch() ==> fetched == Ok::<u16, Fault>(old(self)@.next_opcode())
                && final(self)@ == old(self)@.after_fetch(),
            !old(self)@.can_fetch() ==> fetched == Err::<u16, Fault>(
                Fault::AddressOutOfRange { address: old(self)@.pc },
            ) && final(self)@ == old(self)@,
    {
        proof {
            use_type_invariant(&*self);
        }
        if self.pc >= 4095 {
            return Err(Fault::AddressOutOfRange { address: self.pc });
        }
        let high: u8 = self.ram[self.pc as usize];
        let low: u8 = self.ram[self.pc as usize + 1];
        proof {
            lemma_word_from_bytes(high, low);
        }
        self.pc += 2;
        Ok(((high as u16) << 8) | (low as u16))
    }

    fn clear_screen(&mut self)
        ensures
            final(self)@ == (State { display: Seq::new(2048, |p: int| false), ..old(self)@ }),
    {
        proof {
            use_type_invariant(&*self);
        }
        let ghost before = self@;
        let mut p: usize = 0;
        while p < 2048
            invariant
                p <= 2048,
                before.wf(),
                self.display@.len() == 2048,
                self@ == (State { display: self.display@, ..before }),
                forall|q: int| 0 <= q < p ==> !self.display@[q],
            decreases 2048 - p,
        {
            self.display[p] = false;
            p += 1;
        }
        assert(self.display@ =~= Seq::new(2048, |p: int| false));
    }

    fn draw_rows(&mut self, x: u8, y: u8, n: u8)
        requires
            old(self)@.index + rows_drawn(y as int % 32, n as int) <= 4096,
        ensures
            final(self)@ == (State {
                display: old(self)@.drawn_display(x as int % 64, y as int % 32, n as int),
                reg: old(self)@.reg.update(
                    15,
                    if old(self)@.sprite_collides(x as int % 64, y as int % 32, n as int) {
                        1u8
                    } else {
                        0u8
                    },
                ),
                ..old(self)@
            }),
    {
        proof {
            use_type_invariant(&*self);
        }
        let ghost before = self@;
        let x0: usize = (x % 64) as usize;
        let y0: usize = (y % 32) as usize;
        let base: usize = self.reg_i as usize;
        let mut collision: bool = false;
        let ghost mut witness: int = 0;
        let mut row: usize = 0;
        while row < n as usize && y0 + row < 32
            invariant
                before.wf(),
                x0 == x as int % 64,
                y0 == y as int % 32,
                base == before.index,
                base + rows_drawn(y0 as int, n as int) <= 4096,
                row <= n,
                row <= rows_drawn(y0 as int, n as int),
                self.display@.len() == 2048,
                self@ == (State { display: self.display@, ..before }),
                forall|p: int|
                    0 <= p < 2048 ==> self.display@[p] == if sprite_covers(
                        x0 as int,
                        y0 as int,
                        row as int,
                        p,
                    ) {
                        before.display[p] != before.sprite_dot(x0 as int, y0 as int, p)
                    } else {
                        before.display[p]
                    },
                collision ==> 0 <= witness < 2048 && sprite_covers(
                    x0 as int,
                    y0 as int,
                    row as int,
                    witness,
                ) && before.display[witness] && before.sprite_dot(x0 as int, y0 as int, witness),
                !collision ==> forall|p: int|
                    0 <= p < 2048 && sprite_covers(x0 as int, y0 as int, row as int, p)
                        && before.display[p] ==> !#[trigger] before.sprite_dot(
                        x0 as int,
                        y0 as int,
                        p,
                    ),
            decreases n - row,
        {
            let line: usize = y0 + row;
            let sprite_byte: u8 = self.ram[base + row];
            let mut bit: u8 = 0;
            while bit < 8 && x0 + (bit as usize) < 64
                invariant
                    before.wf(),
                    x0 < 64,
                    line == y0 + row,
                    line < 32,
                    row < n,
                    bit <= 8,
                    base == before.index,
                    base + row < 4096,
                    sprite_byte == before.ram[base + row],
                    self.display@.len() == 2048,
                    self@ == (State { display: self.display@, ..before }),
                    forall|p: int|
                        0 <= p < 2048 ==> self.display@[p] == if sprite_covers(
                            x0 as int,
                            y0 as int,
                            row as int,
                            p,
                        ) || (p / 64 == line && x0 <= p % 64 < x0 + bit) {
                            before.display[p] != before.sprite_dot(x0 as int, y0 as int, p)
                        } else {
                            before.display[p]
                        },
                    collision ==> 0 <= witness < 2048 && (sprite_covers(
                        x0 as int,
                        y0 as int,
                        row as int,
                        witness,
                    ) || (witness / 64 == line && x0 <= witness % 64 < x0 + bit))
                        && before.display[witness] && before.sprite_dot(
                        x0 as int,
                        y0 as int,
                        witness,
                    ),
                    !collision ==> forall|p: int|
                        0 <= p < 2048 && (sprite_covers(x0 as int, y0 as int, row as int, p) || (p
                            / 64 == line && x0 <= p % 64 < x0 + bit)) && before.display[p]
                            ==> !#[trigger] before.sprite_dot(x0 as int, y0 as int, p),
                decreases 8 - bit,
            {
                let column: usize = x0 + bit as usize;
                let p: usize = line * 64 + column;
                let shift: u8 = 7 - bit;
                let dot: bool = (sprite_byte >> shift) & 1 == 1;
                assert(p as int / 64 == line && p as int % 64 == column);
                assert(dot == before.sprite_dot(x0 as int, y0 as int, p as int));
                let lit: bool = self.display[p];
                assert(lit == before.display[p as int]);
                if dot && lit {
                    collision = true;
                    proof {
                        witness = p as int;
                    }
                }
                self.display[p] = lit != dot;
                bit += 1;
            }
            row += 1;
        }
        self.reg[FLAG] = if collision {
            1
        } else {
            0
        };
        proof {
            let rows = rows_drawn(y0 as int, n as int);
            assert(row == rows);
            assert forall|p: int| 0 <= p < 2048 implies sprite_covers(
                x0 as int,
                y0 as int,
                row as int,
                p,
            ) == sprite_covers(x0 as int, y0 as int, n as int, p) by {}
            assert(self.display@ =~= before.drawn_display(x0 as int, y0 as int, n as int));
            assert(collision == before.sprite_collides(x0 as int, y0 as int, n as int));
        }
    }
}


impl VM {
    fn execute_arithmetic(&mut self, opcode: u16) -> (done: Result<bool, Fault>)
        requires
            op_class(opcode) == 8,
        ensures
            final(self)@.wf(),
            match old(self)@.arithmetic(opcode) {
                Ok(next) => done == Ok::<bool, Fault>(false) && final(self)@ == next,
                Err(fault) => done == Err::<bool, Fault>(fault) && final(self)@ == old(self)@,
            },
    {
        proof {
            use_type_invariant(&*self);
            lemma_opcode_fields(opcode);
        }
        let n: u8 = (opcode & 0xF) as u8;
        let x: usize = ((opcode >> 8) & 0xF) as usize;
        let y: usize = ((opcode >> 4) & 0xF) as usize;
        let vx: u8 = self.reg[x];
        let vy: u8 = self.reg[y];
        if n == 0 {
            self.reg[x] = vy;
            return Ok(false);
        }
        let shifted: u8 = if self.quirks.shift_reads_vy {
            vy
        } else {
            vx
        };
        match compute(n, vx, vy, shifted) {
            Some((value, flag)) => {
                self.reg[x] = value;
                self.reg[FLAG] = flag;
                Ok(false)
            },
            None => Err(Fault::UnknownOpcode { opcode }),
        }
    }

    fn execute_timers_and_memory(&mut self, opcode: u16) -> (done: Result<bool, Fault>)
        requires
            op_class(opcode) == 0xF,
        ensures
            final(self)@.wf(),
            match old(self)@.timers_and_memory(opcode) {
                Ok(next) => done == Ok::<bool, Fault>(false) && final(self)@ == next,
                Err(fault) => done == Err::<bool, Fault>(fault) && final(self)@ == old(self)@,
            },
    {
        proof {
            use_type_invariant(&*self);
            lemma_opcode_fields(opcode);
        }
        let ghost before = self@;
        let x: usize = ((opcode >> 8) & 0xF) as usize;
        let vx: u8 = self.reg[x];
        let index: usize = self.reg_i as usize;
        match opcode & 0xFF {
            0x07 => {
                self.reg[x] = self.delay_timer;
            },
            0x0A => {
                self.waiting_for_key = Some(x as u8);
            },
            0x15 => {
                self.delay_timer = vx;
            },
            0x18 => {
                self.sound_timer = vx;
            },
            0x1E => {
                self.reg_i = self.reg_i.wrapping_add(vx as u16);
            },
            0x29 => {
                self.reg_i = vx as u16 * 5;
            },
            0x33 => {
                if index + 2 >= RAM_SIZE {
                    return Err(Fault::AddressOutOfRange { address: self.reg_i });
                }
                self.ram[index] = vx / 100;
                self.ram[index + 1] = (vx / 10) % 10;
                self.ram[index + 2] = vx % 10;
            },
            0x55 => {
                if index + x >= RAM_SIZE {
                    return Err(Fault::AddressOutOfRange { address: self.reg_i });
                }
                let mut i: usize = 0;
                while i <= x
                    invariant
                        before.wf(),
                        x < 16,
                        i <= x + 1,
                        index == before.index,
                        index + x < 4096,
                        self.ram@.len() == 4096,
                        self@ == (State { ram: self.ram@, ..before }),
                        forall|a: int|
                            0 <= a < 4096 ==> self.ram@[a] == if index <= a < index + i {
                                before.reg[a - index]
                            } else {
                                before.ram[a]
                            },
                    decreases x + 1 - i,
                {
                    self.ram[index + i] = self.reg[i];
                    i += 1;
                }
                if self.quirks.index_advances {
                    self.reg_i = (index + x + 1) as u16;
                }
                assert(self@.ram =~= before.timers_and_memory(opcode).unwrap().ram);
            },
            0x65 => {
                if index + x >= RAM_SIZE {
                    return Err(Fault::AddressOutOfRange { address: self.reg_i });
                }
                let mut i: usize = 0;
                while i <= x
                    invariant
                        before.wf(),
                        x < 16,
                        i <= x + 1,
                        index == before.index,
                        index + x < 4096,
                        self.reg@.len() == 16,
                        self@ == (State { reg: self.reg@, ..before }),
                        forall|j: int|
                            0 <= j < 16 ==> self.reg@[j] == if j < i {
                                before.ram[index + j]
                            } else {
                                before.reg[j]
                            },
                    decreases x + 1 - i,
                {
                    self.reg[i] = self.ram[index + i];
                    i += 1;
                }
                if self.quirks.index_advances {
                    self.reg_i = (index + x + 1) as u16;
                }
                assert(self@.reg =~= before.timers_and_memory(opcode).unwrap().reg);
            },
            _ => {
                return Err(Fault::UnknownOpcode { opcode });
            },
        }
        Ok(false)
    }

    fn execute_control(&mut self, opcode: u16) -> (done: Result<bool, Fault>)
        requires
            op_class(opcode) == 0 || op_class(opcode) == 1 || op_class(opcode) == 2 || op_class(
                opcode,
            ) == 0xB,
        ensures
            final(self)@.wf(),
            match old(self)@.control(opcode) {
                Ok(next) => done == Ok::<bool, Fault>(opcode == 0x00E0) && final(self)@ == next,
                Err(fault) => done == Err::<bool, Fault>(fault) && final(self)@ == old(self)@,
            },
    {
        proof {
            use_type_invariant(&*self);
            lemma_opcode_fields(opcode);
        }
        let nnn: u16 = opcode & 0x0FFF;
        match opcode >> 12 {
            0x0 => {
                if opcode == 0x00E0 {
                    self.clear_screen();
                    Ok(true)
                } else if opcode == 0x00EE {
                    if self.sp == 0 {
                        return Err(Fault::StackUnderflow);
                    }
                    let target: u16 = self.pop();
                    self.pc = target;
                    Ok(false)
                } else {
                    Err(Fault::NativeCall { address: nnn })
                }
            },
            0x1 => {
                self.pc = nnn;
                Ok(false)
            },
            0x2 => {
                if self.sp >= STACK_DEPTH {
                    return Err(Fault::StackOverflow);
                }
                let origin: u16 = self.pc;
                self.push(origin);
                self.pc = nnn;
                Ok(false)
            },
            _ => {
                self.pc = nnn + self.reg[0] as u16;
                Ok(false)
            },
        }
    }

    fn execute_compare(&mut self, opcode: u16) -> (done: Result<bool, Fault>)
        requires
            op_class(opcode) == 3 || op_class(opcode) == 4 || op_class(opcode) == 5 || op_class(
                opcode,
            ) == 9,
        ensures
            final(self)@.wf(),
            match old(self)@.compare(opcode) {
                Ok(next) => done == Ok::<bool, Fault>(false) && final(self)@ == next,
                Err(fault) => done == Err::<bool, Fault>(fault) && final(self)@ == old(self)@,
            },
    {
        proof {
            use_type_invariant(&*self);
            lemma_opcode_fields(opcode);
        }
        let class: u16 = opcode >> 12;
        let kk: u8 = (opcode & 0x00FF) as u8;
        let vx: u8 = self.reg[((opcode >> 8) & 0xF) as usize];
        let vy: u8 = self.reg[((opcode >> 4) & 0xF) as usize];
        if class == 3 {
            self.skip(vx == kk);
        } else if class == 4 {
            self.skip(vx != kk);
        } else if opcode & 0xF != 0 {
            return Err(Fault::UnknownOpcode { opcode });
        } else if class == 5 {
            self.skip(vx == vy);
        } else {
            self.skip(vx != vy);
        }
        Ok(false)
    }

    fn execute_immediate(&mut self, opcode: u16, random: u8)
        requires
            op_class(opcode) == 6 || op_class(opcode) == 7 || op_class(opcode) == 0xA || op_class(
                opcode,
            ) == 0xC,
        ensures
            final(self)@.wf(),
            final(self)@ == old(self)@.immediate(opcode, random),
    {
        proof {
            use_type_invariant(&*self);
            lemma_opcode_fields(opcode);
        }
        let class: u16 = opcode >> 12;
        let kk: u8 = (opcode & 0x00FF) as u8;
        let x: usize = ((opcode >> 8) & 0xF) as usize;
        if class == 6 {
            self.reg[x] = kk;
        } else if class == 7 {
            self.reg[x] = self.reg[x].wrapping_add(kk);
        } else if class == 0xA {
            self.reg_i = opcode & 0x0FFF;
        } else {
            self.reg[x] = random & kk;
        }
    }

    /// Draw the sprite of `n` rows that stands at `I` with its top left
    /// corner at (`x` modulo 64, `y` modulo 32). Every dot that is set flips
    /// its pixel; dots beyond the right or the bottom edge are dropped. `VF`
    /// becomes 1 where a pixel that was on has gone off, which is where a
    /// dot that is set fell on a pixel that was on, and 0 where none has.
    /// Where a row that falls on the display lies beyond memory, nothing
    /// changes.
    pub fn draw_sprite(&mut self, x: u8, y: u8, n: u8) -> (drawn: Result<(), Fault>)
        ensures
            old(self)@.wf(),
            final(self)@.wf(),
            match old(self)@.draw_at(x, y, n as int) {
                Ok(next) => drawn == Ok::<(), Fault>(()) && final(self)@ == next,
                Err(fault) => drawn == Err::<(), Fault>(fault) && final(self)@ == old(self)@,
            },
            old(self)@.index + n <= 4096 ==> drawn is Ok,
            drawn is Ok ==> final(self)@.reg[15] == 0 || final(self)@.reg[15] == 1,
            drawn is Ok ==> (final(self)@.reg[15] == 1 <==> exists|row: int, bit: int|
                0 <= row < n && 0 <= bit < 8 && #[trigger] old(self)@.sprite_hits(
                    x as int % 64,
                    y as int % 32,
                    row,
                    bit,
                )),
            drawn is Ok ==> (final(self)@.reg[15] == 1 <==> exists|p: int|
                0 <= p < 2048 && old(self)@.display[p] && !#[trigger] final(self)@.display[p]),
    {
        proof {
            use_type_invariant(&*self);
            lemma_collision(self@, x as int % 64, y as int % 32, n as int);
        }
        let ghost before = self@;
        let rows: usize = if (y % 32) as usize + n as usize <= 32 {
            n as usize
        } else {
            32 - (y % 32) as usize
        };
        if self.reg_i as usize + rows > RAM_SIZE {
            return Err(Fault::AddressOutOfRange { address: self.reg_i });
        }
        self.draw_rows(x, y, n);
        proof {
            let drawn = before.drawn_display(x as int % 64, y as int % 32, n as int);
            assert(self@.display == drawn);
            if exists|p: int| 0 <= p < 2048 && before.display[p] && !#[trigger] drawn[p] {
                let p = choose|p: int| 0 <= p < 2048 && before.display[p] && !#[trigger] drawn[p];
                assert(before.display[p] && !self@.display[p]);
            }
            if exists|p: int| 0 <= p < 2048 && before.display[p] && !#[trigger] self@.display[p] {
                let p = choose|p: int|
                    0 <= p < 2048 && before.display[p] && !#[trigger] self@.display[p];
                assert(before.display[p] && !drawn[p]);
            }
        }
        Ok(())
    }

    fn execute_draw(&mut self, opcode: u16) -> (done: Result<bool, Fault>)
        requires
            op_class(opcode) == 0xD,
        ensures
            final(self)@.wf(),
            match old(self)@.draw(opcode) {
                Ok(next) => done == Ok::<bool, Fault>(true) && final(self)@ == next,
                Err(fault) => done == Err::<bool, Fault>(fault) && final(self)@ == old(self)@,
            },
    {
        proof {
            use_type_invariant(&*self);
            lemma_opcode_fields(opcode);
        }
        let n: u8 = (opcode & 0x000F) as u8;
        let vx: u8 = self.reg[((opcode >> 8) & 0xF) as usize];
        let vy: u8 = self.reg[((opcode >> 4) & 0xF) as usize];
        match self.draw_sprite(vx, vy, n) {
            Ok(()) => Ok(true),
            Err(fault) => Err(fault),
        }
    }

    fn execute_keypad_skip(&mut self, opcode: u16, keys: &[bool; 16]) -> (done: Result<bool, Fault>)
        requires
            op_class(opcode) == 0xE,
        ensures
            final(self)@.wf(),
            match old(self)@.keypad_skip(opcode, keys@) {
                Ok(next) => done == Ok::<bool, Fault>(false) && final(self)@ == next,
                Err(fault) => done == Err::<bool, Fault>(fault) && final(self)@ == old(self)@,
            },
    {
        proof {
            use_type_invariant(&*self);
            lemma_opcode_fields(opcode);
        }
        let kk: u8 = (opcode & 0x00FF) as u8;
        let vx: u8 = self.reg[((opcode >> 8) & 0xF) as usize];
        let down: bool = keys[(vx % 16) as usize];
        if kk == 0x9E {
            self.skip(down);
            Ok(false)
        } else if kk == 0xA1 {
            self.skip(!down);
            Ok(false)
        } else {
            Err(Fault::UnknownOpcode { opcode })
        }
    }

    /// Execute one instruction, with `random` as the byte that `Cxkk` reads.
    /// `keys[k]` tells whether key `k` of the keypad is down. The result
    /// tells whether the frame is to be shown. After a fault the machine is
    /// as it was.
    pub fn execute_with(&mut self, opcode: u16, keys: &[bool; 16], random: u8) -> (done: Result<
        bool,
        Fault,
    >)
        ensures
            old(self)@.wf(),
            final(self)@.wf(),
            match old(self)@.step(opcode, keys@, random) {
                Ok(next) => done == Ok::<bool, Fault>(presents(opcode)) && final(self)@ == next,
                Err(fault) => done == Err::<bool, Fault>(fault) && final(self)@ == old(self)@,
            },
    {
        proof {
            use_type_invariant(&*self);
            lemma_opcode_fields(opcode);
        }
        match opcode >> 12 {
            0x0 | 0x1 | 0x2 | 0xB => self.execute_control(opcode),
            0x3 | 0x4 | 0x5 | 0x9 => self.execute_compare(opcode),
            0x6 | 0x7 | 0xA | 0xC => {
                self.execute_immediate(opcode, random);
                Ok(false)
            },
            0x8 => self.execute_arithmetic(opcode),
            0xD => self.execute_draw(opcode),
            0xE => self.execute_keypad_skip(opcode, keys),
            _ => self.execute_timers_and_memory(opcode),
        }
    }

    /// Execute one instruction. `Cxkk` draws its byte from the random
    /// generator, so of the outcome only this is known: it is the outcome of
    /// [`VM::execute_with`] for some byte.
    pub fn execute(&mut self, opcode: u16, keys: &[bool; 16]) -> (done: Result<bool, Fault>)
        ensures
            old(self)@.wf(),
            final(self)@.wf(),
            exists|random: u8|
                match #[trigger] old(self)@.step(opcode, keys@, random) {
                    Ok(next) => done == Ok::<bool, Fault>(presents(opcode)) && final(self)@
                        == next,
                    Err(fault) => done == Err::<bool, Fault>(fault) && final(self)@ == old(
                        self,
                    )@,
                },
    {
        proof {
            use_type_invariant(&*self);
        }
        let random: u8 = if opcode >> 12 == 0xC {
            random_byte()
        } else {
            0
        };
        self.execute_with(opcode, keys, random)
    }
}


/// The tone a tick leaves behind: on while the sound timer has not run out
pub open spec fn audio_gate(state: State, timer_due: bool) -> Option<bool> {
    if timer_due {
        Some(state.sound_timer > 0)
    } else {
        None
    }
}

impl VM {
    /// Let a sixtieth of a second pass. The result tells whether the tone is
    /// to sound: it does while the sound timer has not run out.
    pub fn tick_timers(&mut self) -> (tone: bool)
        ensures
            final(self)@ == old(self)@.after_tick(),
            tone == (old(self)@.sound_timer > 0),
    {
        proof {
            use_type_invariant(&*self);
        }
        if self.delay_timer > 0 {
            self.delay_timer -= 1;
        }
        if self.sound_timer >= 1 {
            self.sound_timer -= 1;
            true
        } else {
            false
        }
    }

    /// Take in one event of the host
    pub fn handle_event(&mut self, event: Event)
        ensures
            old(self)@.wf(),
            final(self)@.wf(),
            final(self)@ == old(self)@.after_event(event),
    {
        proof {
            use_type_invariant(&*self);
        }
        match event {
            Event::Quit => {
                self.running = false;
            },
            Event::KeyReleased(key) => {
                if let Some(register) = self.waiting_for_key {
                    if key < 16 {
                        self.reg[register as usize] = key;
                        self.waiting_for_key = None;
                    }
                }
            },
        }
    }

    /// The first part of a cycle: events, then timers
    fn prepare(&mut self, events: &Vec<Event>, timer_due: bool) -> (audio: Option<bool>)
        ensures
            final(self)@.wf(),
            final(self)@ == old(self)@.ready(events@, timer_due),
            audio == audio_gate(old(self)@.after_events(events@), timer_due),
    {
        proof {
            use_type_invariant(&*self);
        }
        let ghost before = self@;
        let mut i: usize = 0;
        while i < events.len()
            invariant
                i <= events@.len(),
                self@.wf(),
                self@ == before.after_events(events@.take(i as int)),
            decreases events@.len() - i,
        {
            assert(events@.take(i + 1).drop_last() =~= events@.take(i as int));
            self.handle_event(events[i]);
            i += 1;
        }
        assert(events@.take(i as int) =~= events@);
        if timer_due {
            let tone: bool = self.tick_timers();
            Some(tone)
        } else {
            None
        }
    }

    /// One turn of the main loop, with `random` as the byte that `Cxkk`
    /// reads: the events are taken in, the timers tick if `timer_due`, and
    /// unless the machine waits for a key the next instruction is fetched
    /// and executed. After a fault the machine is as it was just before the
    /// step that failed.
    pub fn cycle_with(
        &mut self,
        events: &Vec<Event>,
        timer_due: bool,
        keys: &[bool; 16],
        random: u8,
    ) -> (done: Result<Cycle, Fault>)
        ensures
            old(self)@.wf(),
            final(self)@.wf(),
            ({
                let ready = old(self)@.ready(events@, timer_due);
                let audio = audio_gate(old(self)@.after_events(events@), timer_due);
                if ready.waiting_for_key is Some {
                    final(self)@ == ready && done == Ok::<Cycle, Fault>(
                        Cycle { present: false, audio },
                    )
                } else if !ready.can_fetch() {
                    final(self)@ == ready && done == Err::<Cycle, Fault>(
                        Fault::AddressOutOfRange { address: ready.pc },
                    )
                } else {
                    match ready.after_fetch().step(ready.next_opcode(), keys@, random) {
                        Ok(next) => final(self)@ == next && done == Ok::<Cycle, Fault>(
                            Cycle { present: presents(ready.next_opcode()), audio },
                        ),
                        Err(fault) => final(self)@ == ready.after_fetch() && done == Err::<
                            Cycle,
                            Fault,
                        >(fault),
                    }
                }
            }),
    {
        proof {
            use_type_invariant(&*self);
        }
        let audio = self.prepare(events, timer_due);
        if self.waiting_for_key.is_some() {
            return Ok(Cycle { present: false, audio });
        }
        let opcode: u16 = match self.fetch() {
            Ok(opcode) => opcode,
            Err(fault) => {
                return Err(fault);
            },
        };
        match self.execute_with(opcode, keys, random) {
            Ok(present) => Ok(Cycle { present, audio }),
            Err(fault) => Err(fault),
        }
    }

    /// One turn of the main loop. `Cxkk` draws its byte from the random
    /// generator, so of the outcome only this is known: it is the outcome of
    /// [`VM::cycle_with`] for some byte.
    pub fn cycle(&mut self, events: &Vec<Event>, timer_due: bool, keys: &[bool; 16]) -> (done:
        Result<Cycle, Fault>)
        ensures
            old(self)@.wf(),
            final(self)@.wf(),
            ({
                let ready = old(self)@.ready(events@, timer_due);
                let audio = audio_gate(old(self)@.after_events(events@), timer_due);
                if ready.waiting_for_key is Some {
                    final(self)@ == ready && done == Ok::<Cycle, Fault>(
                        Cycle { present: false, audio },
                    )
                } else if !ready.can_fetch() {
                    final(self)@ == ready && done == Err::<Cycle, Fault>(
                        Fault::AddressOutOfRange { address: ready.pc },
                    )
                } else {
                    exists|random: u8|
                        match #[trigger] ready.after_fetch().step(
                            ready.next_opcode(),
                            keys@,
                            random,
                        ) {
                            Ok(next) => final(self)@ == next && done == Ok::<Cycle, Fault>(
                                Cycle { present: presents(ready.next_opcode()), audio },
                            ),
                            Err(fault) => final(self)@ == ready.after_fetch() && done == Err::<
                                Cycle,
                                Fault,
                            >(fault),
                        }
                }
            }),
    {
        proof {
            use_type_invariant(&*self);
        }
        let audio = self.prepare(events, timer_due);
        if self.waiting_for_key.is_some() {
            return Ok(Cycle { present: false, audio });
        }
        let opcode: u16 = match self.fetch() {
            Ok(opcode) => opcode,
            Err(fault) => {
                return Err(fault);
            },
        };
        match self.execute(opcode, keys) {
            Ok(present) => Ok(Cycle { present, audio }),
            Err(fault) => Err(fault),
        }
    }
}


impl VM {
    /// How the machine behaves where interpreters differ
    pub fn quirks(&self) -> (quirks: Quirks)
        ensures
            quirks == self@.quirks,
    {
        self.quirks
    }

    /// Whether no quit request has come in yet
    pub fn is_running(&self) -> (running: bool)
        ensures
            running == self@.running,
    {
        self.running
    }

    /// The program counter
    pub fn pc(&self) -> (pc: u16)
        ensures
            pc == self@.pc,
    {
        self.pc
    }

    /// The index register `I`
    pub fn index(&self) -> (index: u16)
        ensures
            index == self@.index,
    {
        self.reg_i
    }

    /// The registers `V0` to `VF`
    pub fn registers(&self) -> (reg: [u8; 16])
        ensures
            reg@ == self@.reg,
    {
        self.reg
    }

    /// The number of return addresses on the call stack
    pub fn stack_pointer(&self) -> (sp: usize)
        ensures
            sp == self@.sp,
    {
        self.sp
    }

    /// The delay timer
    pub fn delay_timer(&self) -> (value: u8)
        ensures
            value == self@.delay_timer,
    {
        self.delay_timer
    }

    /// The sound timer
    pub fn sound_timer(&self) -> (value: u8)
        ensures
            value == self@.sound_timer,
    {
        self.sound_timer
    }

    /// The register that waits for a key, if the machine is suspended
    pub fn waiting_for_key(&self) -> (register: Option<u8>)
        ensures
            register == self@.waiting_for_key,
    {
        self.waiting_for_key
    }

    /// The byte of memory at `address`, if there is one
    pub fn peek(&self, address: usize) -> (byte: Option<u8>)
        ensures
            byte == if address < self@.ram.len() {
                Some(self@.ram[address as int])
            } else {
                None
            },
    {
        if address < self.ram.len() {
            Some(self.ram[address])
        } else {
            None
        }
    }

    /// Whether the pixel in column `x` of row `y` is on; no pixel outside the display is
    pub fn pixel(&self, x: usize, y: usize) -> (on: bool)
        ensures
            on == (x < 64 && y < 32 && y * 64 + x < self@.display.len() && self@.display[y * 64
                + x]),
    {
        if x < DISPLAY_WIDTH && y < DISPLAY_HEIGHT {
            let p: usize = y * 64 + x;
            p < self.display.len() && self.display[p]
        } else {
            false
        }
    }

    /// The frame as one byte for each pixel, row by row: `0xFF` where the pixel is on, `0` where it is off
    pub fn frame(&self) -> (bytes: Vec<u8>)
        ensures
            bytes@ == Seq::new(
                self@.display.len(),
                |p: int|
                    if self@.display[p] {
                        0xFFu8
                    } else {
                        0u8
                    },
            ),
    {
        let mut bytes: Vec<u8> = Vec::new();
        let mut p: usize = 0;
        while p < self.display.len()
            invariant
                p <= self.display@.len(),
                bytes@.len() == p,
                forall|q: int|
                    0 <= q < p ==> bytes@[q] == if self.display@[q] {
                        0xFFu8
                    } else {
                        0u8
                    },
            decreases self.display@.len() - p,
        {
            bytes.push(
                if self.display[p] {
                    0xFF
                } else {
                    0
                },
            );
            p += 1;
        }
        assert(bytes@ =~= Seq::new(
            self@.display.len(),
            |p: int|
                if self@.display[p] {
                    0xFFu8
                } else {
                    0u8
                },
        ));
        bytes
    }
}

// The keypad

/// The key of the host keyboard that stands for each key of the keypad,
/// `0` to `F`: the block `1234`, `QWER`, `ASDF`, `ZXCV` is the keypad
/// `123C`, `456D`, `789E`, `A0BF`
pub open spec fn keypad_layout() -> Seq<char> {
    seq!['X', '1', '2', '3', 'Q', 'W', 'E', 'A', 'S', 'D', 'Z', 'C', '4', 'R', 'F', 'V']
}

/// The key of the keypad that a key of the host keyboard stands for, if it stands for one
pub fn key_to_chip8_key(key: char) -> (chip8_key: Option<u8>)
    ensures
        match chip8_key {
            Some(k) => k < 16 && keypad_layout()[k as int] == key,
            None => forall|k: int| 0 <= k < 16 ==> keypad_layout()[k] != key,
        },
{
    match key {
        '1' => Some(0x1),
        '2' => Some(0x2),
        '3' => Some(0x3),
        '4' => Some(0xC),
        'Q' => Some(0x4),
        'W' => Some(0x5),
        'E' => Some(0x6),
        'R' => Some(0xD),
        'A' => Some(0x7),
        'S' => Some(0x8),
        'D' => Some(0x9),
        'F' => Some(0xE),
        'Z' => Some(0xA),
        'X' => Some(0x0),
        'C' => Some(0xB),
        'V' => Some(0xF),
        _ => None,
    }
}

/// The key of the host keyboard that stands for a key of the keypad
pub fn chip8_key_to_key(chip8_key: u8) -> (key: char)
    requires
        chip8_key < 16,
    ensures
        key == keypad_layout()[chip8_key as int],
{
    match chip8_key {
        0x1 => '1',
        0x2 => '2',
        0x3 => '3',
        0xC => '4',
        0x4 => 'Q',
        0x5 => 'W',
        0x6 => 'E',
        0xD => 'R',
        0x7 => 'A',
        0x8 => 'S',
        0x9 => 'D',
        0xE => 'F',
        0xA => 'Z',
        0x0 => 'X',
        0xB => 'C',
        _ => 'V',
    }
}

// Laws of the machine

/// Whatever happens to a machine that is well formed, it stays well
/// formed: memory, registers, stack and display keep their sizes, and the
/// stack pointer stays within the stack.
pub proof fn law_machine_stays_well_formed(
    state: State,
    opcode: u16,
    keys: Seq<bool>,
    random: u8,
    program: Seq<u8>,
    event: Event,
)
    requires
        state.wf(),
    ensures
        state.step(opcode, keys, random) matches Ok(next) ==> next.wf(),
        state.with_program(program).wf(),
        state.after_fetch().wf(),
        state.after_tick().wf(),
        state.after_event(event).wf(),
{
}

/// No key of the host keyboard stands for two keys of the keypad.
pub proof fn law_keypad_is_one_to_one(a: int, b: int)
    requires
        0 <= a < 16,
        0 <= b < 16,
        a != b,
    ensures
        keypad_layout()[a] != keypad_layout()[b],
{
}

/// After a sprite has been drawn, `VF` is 0 or 1, and it is 1 exactly when
/// a pixel that was on has gone off, which is when a dot of the sprite
/// that is set fell on a pixel that was on.
pub proof fn law_draw_flags_erased_pixels(state: State, opcode: u16, keys: Seq<bool>, random: u8)
    requires
        state.wf(),
        op_class(opcode) == 0xD,
        state.step(opcode, keys, random) is Ok,
    ensures
        ({
            let next = state.step(opcode, keys, random).unwrap();
            let x0 = state.reg[op_x(opcode)] as int % 64;
            let y0 = state.reg[op_y(opcode)] as int % 32;
            &&& next.reg[15] == 0 || next.reg[15] == 1
            &&& next.reg[15] == 1 <==> exists|p: int|
                0 <= p < 2048 && state.display[p] && !#[trigger] next.display[p]
            &&& next.reg[15] == 1 <==> exists|row: int, bit: int|
                0 <= row < op_n(opcode) && 0 <= bit < 8 && #[trigger] state.sprite_hits(
                    x0,
                    y0,
                    row,
                    bit,
                )
        }),
{
    let next = state.step(opcode, keys, random).unwrap();
    let x0 = state.reg[op_x(opcode)] as int % 64;
    let y0 = state.reg[op_y(opcode)] as int % 32;
    let n = op_n(opcode);
    lemma_collision(state, x0, y0, n);
    let drawn = state.drawn_display(x0, y0, n);
    assert(next.display == drawn);
    if exists|p: int| 0 <= p < 2048 && state.display[p] && !#[trigger] drawn[p] {
        let p = choose|p: int| 0 <= p < 2048 && state.display[p] && !#[trigger] drawn[p];
        assert(state.display[p] && !next.display[p]);
    }
    if exists|p: int| 0 <= p < 2048 && state.display[p] && !#[trigger] next.display[p] {
        let p = choose|p: int| 0 <= p < 2048 && state.display[p] && !#[trigger] next.display[p];
        assert(state.display[p] && !drawn[p]);
    }
}

/// After `8xy4`, `VF` is 1 if the sum of `Vx` and `Vy` does not fit in a
/// byte and 0 if it does; `Vx`, unless it is `VF` itself, holds the sum
/// modulo 256.
pub proof fn law_add_sets_carry(state: State, opcode: u16, keys: Seq<bool>, random: u8)
    requires
        state.wf(),
        op_class(opcode) == 8,
        op_n(opcode) == 4,
    ensures
        state.step(opcode, keys, random) is Ok,
        ({
            let next = state.step(opcode, keys, random).unwrap();
            let sum = state.reg[op_x(opcode)] + state.reg[op_y(opcode)];
            &&& next.reg[15] == 0 || next.reg[15] == 1
            &&& next.reg[15] == 1 <==> sum >= 256
            &&& op_x(opcode) != 15 ==> next.reg[op_x(opcode)] == sum % 256
        }),
{
}

/// After `8xy5`, `VF` is 1 if `Vx` was at least `Vy` and 0 if it was not;
/// `Vx`, unless it is `VF` itself, holds the difference modulo 256.
pub proof fn law_sub_clears_borrow(state: State, opcode: u16, keys: Seq<bool>, random: u8)
    requires
        state.wf(),
        op_class(opcode) == 8,
        op_n(opcode) == 5,
    ensures
        state.step(opcode, keys, random) is Ok,
        ({
            let next = state.step(opcode, keys, random).unwrap();
            let vx = state.reg[op_x(opcode)];
            let vy = state.reg[op_y(opcode)];
            &&& next.reg[15] == 0 || next.reg[15] == 1
            &&& next.reg[15] == 1 <==> vx >= vy
            &&& op_x(opcode) != 15 ==> next.reg[op_x(opcode)] == (vx - vy) % 256
        }),
{
}

/// Whether the instruction writes to memory: `Fx33` and `Fx55` do, and no other
pub open spec fn stores(opcode: u16) -> bool {
    op_class(opcode) == 0xF && (op_kk(opcode) == 0x33 || op_kk(opcode) == 0x55)
}

/// The font stays as it is: an instruction changes memory only where it
/// stores, from the index register upwards, so a program that keeps the
/// index register clear of the font while it stores never touches it.
/// Loading a program, fetching, a tick and an event leave it alone too.
pub proof fn law_font_is_kept(
    state: State,
    opcode: u16,
    keys: Seq<bool>,
    random: u8,
    program: Seq<u8>,
    event: Event,
)
    requires
        state.wf(),
    ensures
        state.step(opcode, keys, random) matches Ok(next) ==> (stores(opcode) ==> state.index
            >= 80) ==> next.ram.subrange(0, 80) == state.ram.subrange(0, 80),
        state.with_program(program).ram.subrange(0, 80) == state.ram.subrange(0, 80),
        state.after_fetch().ram == state.ram,
        state.after_tick().ram == state.ram,
        state.after_event(event).ram == state.ram,
{
    assert(state.with_program(program).ram.subrange(0, 80) =~= state.ram.subrange(0, 80));
    if let Ok(next) = state.step(opcode, keys, random) {
        if stores(opcode) ==> state.index >= 80 {
            assert(next.ram.subrange(0, 80) =~= state.ram.subrange(0, 80));
        }
    }
}

/// The timers never rise but where they are set: `Fx15` alone sets the
/// delay timer and `Fx18` alone the sound timer. No other instruction
/// changes them, a tick only lowers them, and fetching and events leave
/// them alone.
pub proof fn law_timers_never_rise(
    state: State,
    opcode: u16,
    keys: Seq<bool>,
    random: u8,
    event: Event,
)
    requires
        state.wf(),
    ensures
        state.step(opcode, keys, random) matches Ok(next) ==> {
            &&& !(op_class(opcode) == 0xF && op_kk(opcode) == 0x15) ==> next.delay_timer
                == state.delay_timer
            &&& !(op_class(opcode) == 0xF && op_kk(opcode) == 0x18) ==> next.sound_timer
                == state.sound_timer
        },
        state.after_tick().delay_timer <= state.delay_timer,
        state.after_tick().sound_timer <= state.sound_timer,
        state.after_fetch().delay_timer == state.delay_timer,
        state.after_fetch().sound_timer == state.sound_timer,
        state.after_event(event).delay_timer == state.delay_timer,
        state.after_event(event).sound_timer == state.sound_timer,
{
}

} // verus!
