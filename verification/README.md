# fear-gba

A Game Boy Advance emulator core written in Verus: the ARM7TDMI processor
(ARM and THUMB), the memory map and its wait states, DMA, timers, the
picture unit, the sound unit, cartridge backup memory (SRAM, flash, EEPROM)
and the real-time clock, a high-level BIOS, save states, and PNG output.

Every function in `src/` carries a contract that Verus proves; the laws the
emulator keeps (save states load back to the same machine, what a write
makes a read return, the timer and DMA rules) are stated as proof functions
beside the code they speak of.

`app/` is the program around the library: it loads a ROM, opens a window,
plays sound and runs an input script. `tests/` exercises the library.
