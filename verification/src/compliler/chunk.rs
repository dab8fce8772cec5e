//! A chunk of bytecode: the code, the constants and global names it refers
//! to, and the source location of each byte.
use super::opcode::{byte_of, opcode_of, OpCode};
use super::value::{Constant, ConstantView};
use crate::location::Location;
use vstd::prelude::*;
use vstd::string::*;

verus! {

/// The names the machine defines before any code runs, in the order of
/// their global slots.
pub open spec fn builtin_names() -> Seq<Seq<char>> {
    seq!["len"@, "type"@, "clock"@, "assert"@]
}

/// The two bytes, high one first, that a jump of `distance` is written with.
pub open spec fn high_byte(distance: int) -> u8 {
    ((distance / 256) % 256) as u8
}

pub open spec fn low_byte(distance: int) -> u8 {
    (distance % 256) as u8
}

/// The distance written in the two bytes at `at`.
pub open spec fn read_distance(code: Seq<u8>, at: int) -> int {
    code[at] * 256 + code[at + 1]
}

/// How many operand bytes follow the instruction at `offset`.
pub open spec fn operand_count(code: Seq<u8>, offset: int) -> int {
    match opcode_of(code[offset]) {
        Some(op) => match op {
            OpCode::Constant | OpCode::DefineGlobal | OpCode::GetGlobal | OpCode::SetGlobal
            | OpCode::GetLocal | OpCode::SetLocal | OpCode::Call | OpCode::Array
            | OpCode::GetUpvalue | OpCode::SetUpvalue | OpCode::Print => 1,
            OpCode::Jump | OpCode::JumpIfFalse | OpCode::JumpIfTrue | OpCode::Loop => 2,
            OpCode::Closure => 2,
            _ => 0,
        },
        None => 0,
    }
}

/// One decoded instruction, with its operands read.
#[derive(Debug)]
pub enum Instruction {
    /// A byte that stands for no instruction.
    Unknown(u8),
    /// An instruction without operands.
    Simple(OpCode),
    /// An instruction with one operand byte.
    WithOperand(OpCode, u8),
    /// A jump, and the offset it goes to.
    Jump(OpCode, usize),
    /// A closure over the prototype at constant `index`, capturing `count`
    /// variables; the pairs (is local, index) are read where that constant is
    /// a prototype.
    Closure { index: u8, count: u8, captures: Option<Vec<(u8, u8)>> },
}

#[derive(Debug)]
pub struct Chunk {
    code: Vec<u8>,
    constants: Vec<Constant>,
    globals: Vec<String>,
    locations: Vec<Location>,
}

impl Chunk {
    pub closed spec fn code_view(&self) -> Seq<u8> {
        self.code@
    }

    pub closed spec fn constants_view(&self) -> Seq<ConstantView> {
        self.constants@.map_values(|c: Constant| c@)
    }

    pub closed spec fn globals_view(&self) -> Seq<Seq<char>> {
        self.globals@.map_values(|g: String| g@)
    }

    pub closed spec fn locations_view(&self) -> Seq<Location> {
        self.locations@
    }

    /// Every byte of code has its location.
    pub open spec fn wf(&self) -> bool {
        self.code_view().len() == self.locations_view().len()
    }

    /// Whether the constant at `index` is a prototype.
    pub open spec fn is_proto_at(&self, index: int) -> bool {
        0 <= index < self.constants_view().len() && self.constants_view()[index] is Proto
    }

    /// The instruction at `offset` has all its operand bytes in the code,
    /// and a backward jump does not go before the start.
    pub open spec fn decodable(&self, offset: int) -> bool {
        let code = self.code_view();
        &&& 0 <= offset
        &&& offset + operand_count(code, offset) < code.len()
        &&& (opcode_of(code[offset]) == Some(OpCode::Loop) ==> read_distance(code, offset + 1)
            <= offset + 3)
        &&& (opcode_of(code[offset]) == Some(OpCode::Closure) && self.is_proto_at(
            code[offset + 1] as int,
        ) ==> offset + 3 + 2 * code[offset + 2] <= code.len())
        &&& (opcode_of(code[offset]) == Some(OpCode::Closure) ==> offset + 3 + 2 * code[offset
            + 2] <= usize::MAX)
        &&& (opcode_of(code[offset]) matches Some(op) && (op == OpCode::Jump || op
            == OpCode::JumpIfFalse || op == OpCode::JumpIfTrue) ==> offset + 3 + read_distance(
            code,
            offset + 1,
        ) <= usize::MAX)
    }

    /// An empty chunk whose globals are the built-in functions.
    pub fn new() -> (c: Self)
        ensures
            c.code_view() == Seq::<u8>::empty(),
            c.constants_view() == Seq::<ConstantView>::empty(),
            c.globals_view() == builtin_names(),
            c.locations_view() == Seq::<Location>::empty(),
    {
        let mut globals: Vec<String> = Vec::new();
        globals.push(String::from_str("len"));
        globals.push(String::from_str("type"));
        globals.push(String::from_str("clock"));
        globals.push(String::from_str("assert"));
        let c = Chunk { code: Vec::new(), constants: Vec::new(), globals, locations: Vec::new() };
        proof {
            assert(c.globals_view() =~= builtin_names());
            assert(c.constants_view() =~= Seq::<ConstantView>::empty());
        }
        c
    }

    /// The byte at `ip`, if there is one.
    pub fn code(&self, ip: usize) -> (r: Option<u8>)
        ensures
            r == (if ip < self.code_view().len() {
                Some(self.code_view()[ip as int])
            } else {
                None
            }),
    {
        if ip < self.code.len() {
            Some(self.code[ip])
        } else {
            None
        }
    }

    /// The constant at `index`, if there is one.
    pub fn constant(&self, index: usize) -> (r: Option<&Constant>)
        ensures
            match r {
                Some(c) => index < self.constants_view().len() && c@ == self.constants_view()[index as int],
                None => index >= self.constants_view().len(),
            },
    {
        if index < self.constants.len() {
            Some(&self.constants[index])
        } else {
            None
        }
    }

    /// The global name at `index`, if there is one.
    pub fn global(&self, index: usize) -> (r: Option<&String>)
        ensures
            match r {
                Some(g) => index < self.globals_view().len() && g@ == self.globals_view()[index as int],
                None => index >= self.globals_view().len(),
            },
    {
        if index < self.globals.len() {
            Some(&self.globals[index])
        } else {
            None
        }
    }

    pub fn constant_count(&self) -> (n: usize)
        ensures
            n == self.constants_view().len(),
    {
        self.constants.len()
    }

    pub fn global_count(&self) -> (n: usize)
        ensures
            n == self.globals_view().len(),
    {
        self.globals.len()
    }

    /// The offset the next byte is written at.
    pub fn current_ip(&self) -> (ip: usize)
        ensures
            ip == self.code_view().len(),
    {
        self.code.len()
    }

    /// Where in the source the byte at `ip` came from.
    pub fn location_at(&self, ip: usize) -> (loc: Location)
        requires
            ip < self.locations_view().len(),
        ensures
            loc == self.locations_view()[ip as int],
    {
        self.locations[ip]
    }
}

/// Write operations
impl Chunk {
    /// Appends `byte`, placed at the start of the source.
    pub fn write(&mut self, byte: u8)
        ensures
            final(self).code_view() == old(self).code_view().push(byte),
            final(self).locations_view() == old(self).locations_view().push(
                Location { line: 1, column: 1, offset: 0 },
            ),
            final(self).constants_view() == old(self).constants_view(),
            final(self).globals_view() == old(self).globals_view(),
    {
        self.code.push(byte);
        self.locations.push(Location::new());
    }

    pub fn write_with_location(&mut self, byte: u8, location: Location)
        ensures
            final(self).code_view() == old(self).code_view().push(byte),
            final(self).locations_view() == old(self).locations_view().push(location),
            final(self).constants_view() == old(self).constants_view(),
            final(self).globals_view() == old(self).globals_view(),
    {
        self.code.push(byte);
        self.locations.push(location);
    }

    /// The index of the first constant equal to `value`, if there is one.
    pub fn resolve_constant(&self, value: &Constant) -> (r: Option<u8>)
        requires
            self.constants_view().len() <= 256,
        ensures
            match r {
                Some(i) => i < self.constants_view().len() && self.constants_view()[i as int] == value@
                    && forall|j: int| 0 <= j < i ==> self.constants_view()[j] != value@,
                None => !self.constants_view().contains(value@),
            },
    {
        for i in 0..self.constants.len()
            invariant
                self.constants_view().len() <= 256,
                forall|j: int| 0 <= j < i ==> self.constants_view()[j] != value@,
        {
            if self.constants[i].same_as(value) {
                return Some(i as u8);
            }
        }
        proof {
            assert forall|j: int| 0 <= j < self.constants_view().len() implies self.constants_view()[j]
                != value@ by {}
        }
        None
    }

    /// The index of `value` in the constant pool, adding it when it is new.
    pub fn add_constant(&mut self, value: Constant) -> (r: u8)
        requires
            old(self).constants_view().contains(value@) || old(self).constants_view().len() < 255,
            old(self).constants_view().len() <= 255,
        ensures
            old(self).constants_view().contains(value@) ==> final(self).constants_view() == old(
                self,
            ).constants_view() && r < old(self).constants_view().len() && old(
                self,
            ).constants_view()[r as int] == value@ && forall|j: int|
                0 <= j < r ==> old(self).constants_view()[j] != value@,
            !old(self).constants_view().contains(value@) ==> final(self).constants_view() == old(
                self,
            ).constants_view().push(value@) && r == old(self).constants_view().len(),
            final(self).code_view() == old(self).code_view(),
            final(self).globals_view() == old(self).globals_view(),
            final(self).locations_view() == old(self).locations_view(),
    {
        if let Some(index) = self.resolve_constant(&value) {
            return index;
        }
        let n = self.constants.len();
        let ghost before = self.constants@;
        self.constants.push(value);
        proof {
            assert(self.constants_view() =~= before.map_values(|c: Constant| c@).push(value@));
        }
        n as u8
    }

    /// The index of global `name`, adding it when it is new.
    pub fn add_global(&mut self, name: String) -> (r: u8)
        requires
            old(self).globals_view().contains(name@) || old(self).globals_view().len() < 255,
            old(self).globals_view().len() <= 255,
        ensures
            old(self).globals_view().contains(name@) ==> final(self).globals_view() == old(
                self,
            ).globals_view() && r < old(self).globals_view().len() && old(self).globals_view()[r as int]
                == name@ && forall|j: int| 0 <= j < r ==> old(self).globals_view()[j] != name@,
            !old(self).globals_view().contains(name@) ==> final(self).globals_view() == old(
                self,
            ).globals_view().push(name@) && r == old(self).globals_view().len(),
            final(self).code_view() == old(self).code_view(),
            final(self).constants_view() == old(self).constants_view(),
            final(self).locations_view() == old(self).locations_view(),
    {
        if let Some(index) = self.resolve_global(name.as_str()) {
            return index;
        }
        let n = self.globals.len();
        let ghost before = self.globals@;
        self.globals.push(name);
        proof {
            assert(self.globals_view() =~= before.map_values(|g: String| g@).push(name@));
        }
        n as u8
    }

    /// The index of the first global named `name`, if there is one.
    pub fn resolve_global(&self, name: &str) -> (r: Option<u8>)
        requires
            self.globals_view().len() <= 256,
        ensures
            match r {
                Some(i) => i < self.globals_view().len() && self.globals_view()[i as int] == name@
                    && forall|j: int| 0 <= j < i ==> self.globals_view()[j] != name@,
                None => !self.globals_view().contains(name@),
            },
    {
        let key = String::from_str(name);
        for i in 0..self.globals.len()
            invariant
                key@ == name@,
                self.globals_view().len() <= 256,
                forall|j: int| 0 <= j < i ==> self.globals_view()[j] != name@,
        {
            if self.globals[i] == key {
                return Some(i as u8);
            }
        }
        proof {
            assert forall|j: int| 0 <= j < self.globals_view().len() implies self.globals_view()[j]
                != name@ by {}
        }
        None
    }

    /// Writes, in the two bytes at `offset`, the distance from just past them
    /// to the end of the code.
    pub fn patch_jump(&mut self, offset: usize)
        requires
            offset + 2 <= old(self).code_view().len(),
        ensures
            ({
                let jump = old(self).code_view().len() - offset - 2;
                final(self).code_view() == old(self).code_view().update(offset as int, high_byte(jump))
                    .update(offset + 1, low_byte(jump))
            }),
            final(self).constants_view() == old(self).constants_view(),
            final(self).globals_view() == old(self).globals_view(),
            final(self).locations_view() == old(self).locations_view(),
    {
        let jump = self.code.len() - offset - 2;
        self.code.set(offset, ((jump / 256) % 256) as u8);
        self.code.set(offset + 1, (jump % 256) as u8);
    }

    /// Makes the jump whose distance bytes are at `offset` go to `target`:
    /// forward with `Jump`, or back with `Loop`.
    pub fn patch_jump_with_target(&mut self, offset: usize, target: usize)
        requires
            1 <= offset,
            offset + 2 <= old(self).code_view().len(),
            offset < target ==> offset + 2 <= target,
        ensures
            ({
                let (op, jump) = if offset < target {
                    (OpCode::Jump, target - offset - 2)
                } else {
                    (OpCode::Loop, offset - target + 2)
                };
                final(self).code_view() == old(self).code_view().update(offset - 1, byte_of(op)).update(
                    offset as int,
                    high_byte(jump),
                ).update(offset + 1, low_byte(jump))
            }),
            final(self).constants_view() == old(self).constants_view(),
            final(self).globals_view() == old(self).globals_view(),
            final(self).locations_view() == old(self).locations_view(),
    {
        let len = self.code.len();
        let (op, jump) = if offset < target {
            (OpCode::Jump, target - offset - 2)
        } else {
            (OpCode::Loop, offset - target + 2)
        };
        self.code.set(offset - 1, op.to_byte());
        self.code.set(offset, ((jump / 256) % 256) as u8);
        self.code.set(offset + 1, (jump % 256) as u8);
    }

    /// Ends the code with a return of nil, unless it already ends with a return.
    pub fn end_with_return(&mut self)
        ensures
            ({
                let code = old(self).code_view();
                if code.len() > 0 && code.last() == byte_of(OpCode::Return) {
                    final(self).code_view() == code && final(self).locations_view() == old(
                        self,
                    ).locations_view()
                } else {
                    final(self).code_view() == code.push(byte_of(OpCode::Nil)).push(
                        byte_of(OpCode::Return),
                    ) && final(self).locations_view() == old(self).locations_view().push(
                        Location { line: 1, column: 1, offset: 0 },
                    ).push(Location { line: 1, column: 1, offset: 0 })
                }
            }),
            final(self).constants_view() == old(self).constants_view(),
            final(self).globals_view() == old(self).globals_view(),
    {
        let n = self.code.len();
        if n > 0 && self.code[n - 1] == OpCode::Return.to_byte() {
            return;
        }
        self.write(OpCode::Nil.to_byte());
        self.write(OpCode::Return.to_byte());
    }
}

/// Reading the code back.
impl Chunk {
    /// Whether the instruction at `offset` can be decoded: its operands lie
    /// in the code and the offset it jumps to fits in `usize`.
    pub fn is_decodable(&self, offset: usize) -> (b: bool)
        ensures
            b == self.decodable(offset as int),
    {
        let n = self.code.len();
        if offset >= n {
            return false;
        }
        let op = match OpCode::try_from(self.code[offset]) {
            Ok(op) => op,
            Err(_) => {
                return true;
            },
        };
        let count: usize = match op {
            OpCode::Constant | OpCode::DefineGlobal | OpCode::GetGlobal | OpCode::SetGlobal
            | OpCode::GetLocal | OpCode::SetLocal | OpCode::Call | OpCode::Array
            | OpCode::GetUpvalue | OpCode::SetUpvalue | OpCode::Print => 1,
            OpCode::Jump | OpCode::JumpIfFalse | OpCode::JumpIfTrue | OpCode::Loop | OpCode::Closure => 2,
            _ => 0,
        };
        if count >= n - offset {
            return false;
        }
        match op {
            OpCode::Loop => {
                let distance: usize = (self.code[offset + 1] as usize) * 256 + (self.code[offset + 2] as usize);
                distance <= offset + 3
            },
            OpCode::Jump | OpCode::JumpIfFalse | OpCode::JumpIfTrue => {
                let distance: usize = (self.code[offset + 1] as usize) * 256 + (self.code[offset + 2] as usize);
                distance <= usize::MAX - (offset + 3)
            },
            OpCode::Closure => {
                let index = self.code[offset + 1] as usize;
                let pairs: usize = 2 * (self.code[offset + 2] as usize);
                if pairs > usize::MAX - (offset + 3) {
                    return false;
                }
                let is_proto = index < self.constants.len() && match &self.constants[index] {
                    Constant::Proto(_) => true,
                    _ => false,
                };
                !is_proto || offset + 3 + pairs <= n
            },
            _ => true,
        }
    }

    /// The instruction at `offset` and the offset of the one after it.
    pub fn decode_instruction(&self, offset: usize) -> (r: (Instruction, usize))
        requires
            self.decodable(offset as int),
        ensures
            ({
                let code = self.code_view();
                let (ins, next) = r;
                match opcode_of(code[offset as int]) {
                    None => ins == Instruction::Unknown(code[offset as int]) && next == offset + 1,
                    Some(op) => match op {
                        OpCode::Jump | OpCode::JumpIfFalse | OpCode::JumpIfTrue => ins
                            == Instruction::Jump(op, (offset + 3 + read_distance(code, offset + 1)) as usize)
                            && next == offset + 3,
                        OpCode::Loop => ins == Instruction::Jump(
                            op,
                            (offset + 3 - read_distance(code, offset + 1)) as usize,
                        ) && next == offset + 3,
                        OpCode::Closure => {
                            let index = code[offset + 1];
                            let count = code[offset + 2];
                            &&& next == offset + 3 + 2 * count
                            &&& ins matches Instruction::Closure { index: i, count: c, captures }
                            &&& i == index && c == count
                            &&& if self.is_proto_at(index as int) {
                                captures matches Some(pairs) && pairs@.len() == count && forall|
                                    k: int,
                                |
                                    0 <= k < count ==> #[trigger] pairs@[k] == (
                                        code[offset + 3 + 2 * k],
                                        code[offset + 4 + 2 * k],
                                    )
                            } else {
                                captures is None
                            }
                        },
                        _ => if operand_count(code, offset as int) == 1 {
                            ins == Instruction::WithOperand(op, code[offset + 1]) && next == offset + 2
                        } else {
                            ins == Instruction::Simple(op) && next == offset + 1
                        },
                    },
                }
            }),
    {
        let len = self.code.len();
        let byte = self.code[offset];
        let op = match OpCode::try_from(byte) {
            Ok(op) => op,
            Err(_) => {
                return (Instruction::Unknown(byte), offset + 1);
            },
        };
        match op {
            OpCode::Constant | OpCode::DefineGlobal | OpCode::GetGlobal | OpCode::SetGlobal
            | OpCode::GetLocal | OpCode::SetLocal | OpCode::Call | OpCode::Array
            | OpCode::GetUpvalue | OpCode::SetUpvalue | OpCode::Print => {
                (Instruction::WithOperand(op, self.code[offset + 1]), offset + 2)
            },
            OpCode::Jump | OpCode::JumpIfFalse | OpCode::JumpIfTrue => {
                let distance = (self.code[offset + 1] as usize) * 256 + (self.code[offset + 2] as usize);
                (Instruction::Jump(op, offset + 3 + distance), offset + 3)
            },
            OpCode::Loop => {
                let distance = (self.code[offset + 1] as usize) * 256 + (self.code[offset + 2] as usize);
                (Instruction::Jump(op, offset + 3 - distance), offset + 3)
            },
            OpCode::Closure => {
                let index = self.code[offset + 1];
                let count = self.code[offset + 2];
                let is_proto = match self.constant(index as usize) {
                    Some(Constant::Proto(_)) => true,
                    _ => false,
                };
                let captures = if is_proto {
                    assert(offset + 3 + 2 * count <= len);
                    let mut pairs: Vec<(u8, u8)> = Vec::new();
                    for k in 0..count
                        invariant
                            len == self.code_view().len(),
                            offset + 3 + 2 * count <= len,
                            self.decodable(offset as int),
                            self.is_proto_at(index as int),
                            index == self.code_view()[offset + 1],
                            count == self.code_view()[offset + 2],
                            pairs@.len() == k,
                            forall|j: int|
                                0 <= j < k ==> #[trigger] pairs@[j] == (
                                    self.code_view()[offset + 3 + 2 * j],
                                    self.code_view()[offset + 4 + 2 * j],
                                ),
                    {
                        let at = offset + 3 + 2 * (k as usize);
                        pairs.push((self.code[at], self.code[at + 1]));
                    }
                    Some(pairs)
                } else {
                    None
                };
                (Instruction::Closure { index, count, captures }, offset + 3 + 2 * (count as usize))
            },
            _ => (Instruction::Simple(op), offset + 1),
        }
    }
}

} // verus!
