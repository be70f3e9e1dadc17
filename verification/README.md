# ac_switch_rust

A Steam account switcher for Windows, reduced to the two pieces of state that Steam reads
when it picks a remembered account: the `HKCU\Software\Valve\Steam\AutoLoginUser` registry
value and `Steam\config\loginusers.vdf`. It offers three commands: `refresh` lists the
remembered accounts, `login-new` clears `AutoLoginUser` and restarts Steam into its login
flow, and `start` switches to a remembered account in `express` or `offline` mode.

The library in `src/` is verified with Verus. Its contracts cover:

- the `loginusers.vdf` reader and writer, against a grammar written as spec functions over
  the characters of the text, and the fact that any written document reads back as itself;
- the switch itself: which fields it may change (only `MostRecent`, `WantsOfflineMode` and
  `SkipOfflineModeWarning`, in every member of `users` whose key reads as the selected
  account's Steam ID),
  what the accounts read back from the switched document are, and that switching twice
  changes nothing more;
- the listing order of accounts and the stable sort that produces it, which leaves an
  already sorted list as it is;
- path resolution, where command-line overrides win over the registry, which is then not
  read;
- the commands, over abstract registry, process and file services. Every service call goes
  through a method of `App` that records the call and its answer in a ghost log, and each
  command's contract states, for the answers in that log, which calls it makes and what it
  returns, including the process names (`steam.exe`, `steamservice.exe`,
  `steamwebhelper.exe`) and the five-second wait of the shutdown. From those contracts it
  is proved that Steam's processes are reported gone before any write or launch, and that
  `login-new` never writes `loginusers.vdf`.

`app/` holds the command line and the Windows services (registry through `winreg`,
processes through `sysinfo`, files through `std::fs`). `tests/` exercises the library with
mock services.
